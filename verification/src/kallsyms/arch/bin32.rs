//! 32-bit absolute address tables.

use crate::byte_io::{read_u32, u32_at};
use crate::error::Error;
use crate::kallsyms::traits::{is_table_eof_error, table_fits, AddressParser};
use crate::kallsyms::types::KallsymsError;
use vstd::prelude::*;

verus! {

/// Reads little-endian 32-bit absolute addresses.
pub struct Bin32Parser;

/// The addresses of a 32-bit absolute table: each little-endian `u32`,
/// widened.
pub open spec fn abs32_addresses(data: Seq<u8>, offset: int, count: int) -> Seq<u64> {
    Seq::new(count as nat, |i: int| u32_at(data, offset + i * 4, false) as u64)
}

impl AddressParser for Bin32Parser {
    fn parse_addresses(data: &[u8], offset: usize, count: usize) -> (r: Result<Vec<u64>, Error>)
        ensures
            match r {
                Ok(v) => table_fits(offset as int, count as int, 4, data@.len() as int) && v@
                    == abs32_addresses(data@, offset as int, count as int),
                Err(e) => !table_fits(offset as int, count as int, 4, data@.len() as int)
                    && is_table_eof_error(e, offset, 4),
            },
    {
        let mut addrs: Vec<u64> = Vec::new();
        let mut i: usize = 0;
        while i < count
            invariant
                i <= count,
                i == 0 || offset + i * 4 <= data.len(),
                addrs@ == abs32_addresses(data@, offset as int, i as int),
            decreases count - i,
        {
            match read_u32(data, offset + i * 4, true) {
                Some(a) => {
                    addrs.push(a as u64);
                    i = i + 1;
                    assert(addrs@ =~= abs32_addresses(data@, offset as int, i as int));
                },
                None => {
                    return Err(KallsymsError::UnexpectedEof { offset, needed: 4 }.into_error());
                },
            }
        }
        Ok(addrs)
    }

    fn entry_size() -> (r: usize)
        ensures
            r == 4,
    {
        4
    }

    fn can_parse(_data: &[u8], _offset: usize, _sample_count: usize) -> (r: bool)
        ensures
            r,
    {
        true
    }
}

} // verus!
