//! 64-bit absolute address tables.

use crate::byte_io::{read_u64, u64_at};
use crate::error::Error;
use crate::kallsyms::traits::{is_table_eof_error, table_fits, AddressParser};
use crate::kallsyms::types::KallsymsError;
use vstd::prelude::*;

verus! {

/// Reads little-endian 64-bit absolute addresses.
pub struct Bin64Parser;

/// The addresses of a 64-bit absolute table: each little-endian `u64`.
pub open spec fn abs64_addresses(data: Seq<u8>, offset: int, count: int) -> Seq<u64> {
    Seq::new(count as nat, |i: int| u64_at(data, offset + i * 8, false))
}

impl AddressParser for Bin64Parser {
    fn parse_addresses(data: &[u8], offset: usize, count: usize) -> (r: Result<Vec<u64>, Error>)
        ensures
            match r {
                Ok(v) => table_fits(offset as int, count as int, 8, data@.len() as int) && v@
                    == abs64_addresses(data@, offset as int, count as int),
                Err(e) => !table_fits(offset as int, count as int, 8, data@.len() as int)
                    && is_table_eof_error(e, offset, 8),
            },
    {
        let mut addrs: Vec<u64> = Vec::new();
        let mut i: usize = 0;
        while i < count
            invariant
                i <= count,
                i == 0 || offset + i * 8 <= data.len(),
                addrs@ == abs64_addresses(data@, offset as int, i as int),
            decreases count - i,
        {
            match read_u64(data, offset + i * 8, true) {
                Some(a) => {
                    addrs.push(a);
                    i = i + 1;
                    assert(addrs@ =~= abs64_addresses(data@, offset as int, i as int));
                },
                None => {
                    return Err(KallsymsError::UnexpectedEof { offset, needed: 8 }.into_error());
                },
            }
        }
        Ok(addrs)
    }

    fn entry_size() -> (r: usize)
        ensures
            r == 8,
    {
        8
    }

    fn can_parse(_data: &[u8], _offset: usize, _sample_count: usize) -> (r: bool)
        ensures
            r,
    {
        true
    }
}

} // verus!
