//! A quick probe for kallsyms: architecture from image magic, and the
//! token table located from well-known symbol name prefixes.
//!
//! The probe stops after the token table: locating the token index is not
//! supported, so symbol extraction always reports that.

use crate::error::Error;
use crate::kallsyms::decoder::token_end;
use crate::text::text;
use vstd::prelude::*;

verus! {

/// A recovered kernel symbol, its type as the `nm` character.
#[derive(Debug, Clone)]
pub struct KernelSymbol {
    /// Symbol address (virtual address).
    pub address: u64,
    /// Symbol name.
    pub name: String,
    /// Symbol type character (T=text, D=data, etc.).
    pub sym_type: char,
    /// Size of the symbol (if determinable).
    pub size: Option<u64>,
}

/// Whether `c` marks code: `T`, `t`, `W` or `w`.
pub open spec fn is_code_char(c: char) -> bool {
    c == 'T' || c == 't' || c == 'W' || c == 'w'
}

/// Whether `c` marks data: `D`, `d`, `B`, `b`, `R` or `r`.
pub open spec fn is_data_char(c: char) -> bool {
    c == 'D' || c == 'd' || c == 'B' || c == 'b' || c == 'R' || c == 'r'
}

impl KernelSymbol {
    /// Check if this symbol is in the text (code) section.
    pub fn is_code(&self) -> (r: bool)
        ensures
            r == is_code_char(self.sym_type),
    {
        self.sym_type == 'T' || self.sym_type == 't' || self.sym_type == 'W' || self.sym_type
            == 'w'
    }

    /// Check if this symbol is in the data section.
    pub fn is_data(&self) -> (r: bool)
        ensures
            r == is_data_char(self.sym_type),
    {
        self.sym_type == 'D' || self.sym_type == 'd' || self.sym_type == 'B' || self.sym_type
            == 'b' || self.sym_type == 'R' || self.sym_type == 'r'
    }
}

/// No symbol type is both code and data.
pub proof fn lemma_code_not_data(c: char)
    ensures
        !(is_code_char(c) && is_data_char(c)),
{
}

/// Detected kernel architecture.
#[derive(Debug, Clone, Copy, PartialEq, Eq, Structural)]
pub enum KernelArch {
    /// ARM 64-bit (AArch64).
    Arm64,
    /// x86 64-bit.
    X86_64,
    /// ARM 32-bit.
    Arm32,
    /// Unknown architecture.
    Unknown,
}

impl KernelArch {
    /// Get the pointer size for this architecture (64-bit when unknown).
    pub fn pointer_size(&self) -> (r: usize)
        ensures
            r == (if *self == KernelArch::Arm32 {
                4usize
            } else {
                8usize
            }),
    {
        match self {
            KernelArch::Arm64 | KernelArch::X86_64 => 8,
            KernelArch::Arm32 => 4,
            KernelArch::Unknown => 8,
        }
    }
}

/// Result of kallsyms extraction.
#[derive(Debug, Clone)]
pub struct KallsymsResult {
    /// Extracted symbols.
    pub symbols: Vec<KernelSymbol>,
    /// Detected kernel base address.
    pub kernel_base: u64,
    /// Detected architecture.
    pub arch: KernelArch,
    /// Number of symbols found.
    pub symbol_count: usize,
}

/// Whether `pat` occurs in `d` at `i`.
pub open spec fn bytes_occur_at(d: Seq<u8>, pat: Seq<u8>, i: int) -> bool {
    0 <= i && i + pat.len() <= d.len() && d.subrange(i, i + pat.len()) == pat
}

/// The symbol name prefixes whose presence locates the token table:
/// `__cfi_`, `__kstrtab_`, `__ksymtab_`, `__initcall_`.
pub open spec fn probe_marker(k: int) -> Seq<u8> {
    if k == 0 {
        seq![95u8, 95u8, 99u8, 102u8, 105u8, 95u8]
    } else if k == 1 {
        seq![95u8, 95u8, 107u8, 115u8, 116u8, 114u8, 116u8, 97u8, 98u8, 95u8]
    } else if k == 2 {
        seq![95u8, 95u8, 107u8, 115u8, 121u8, 109u8, 116u8, 97u8, 98u8, 95u8]
    } else {
        seq![95u8, 95u8, 105u8, 110u8, 105u8, 116u8, 99u8, 97u8, 108u8, 108u8, 95u8]
    }
}

/// Whether any of the prefixes occurs in `d`.
pub open spec fn has_probe_marker(d: Seq<u8>) -> bool {
    exists|k: int, i: int| 0 <= k < 4 && bytes_occur_at(d, probe_marker(k), i)
}

/// The architecture the image magic shows: `ARM\x64` at 0x38, the boot
/// signature `55 AA` at 0x1FE, or the zImage magic at 0x24.
pub open spec fn magic_arch(d: Seq<u8>) -> KernelArch {
    if d.len() > 0x40 && d[0x38] == 0x41 && d[0x39] == 0x52 && d[0x3A] == 0x4D && d[0x3B] == 0x64 {
        KernelArch::Arm64
    } else if d.len() > 0x202 && d[0x1FE] == 0x55 && d[0x1FF] == 0xAA {
        KernelArch::X86_64
    } else if d.len() >= 0x28 && d[0x24] == 0x18 && d[0x25] == 0x28 && d[0x26] == 0x6F && d[0x27]
        == 0x01 {
        KernelArch::Arm32
    } else {
        KernelArch::Unknown
    }
}

/// The non-empty zero-terminated tokens from `pos` on, added to `acc`
/// until it holds 256 or the data ends.
pub open spec fn probe_tokens(d: Seq<u8>, pos: int, acc: Seq<Seq<u8>>) -> Seq<Seq<u8>>
    decreases d.len() + 1 - pos,
{
    if acc.len() >= 256 || pos >= d.len() || pos < 0 {
        acc
    } else {
        let end = token_end(d, pos);
        if end < pos || end > d.len() {
            acc
        } else {
            probe_tokens(
                d,
                end + 1,
                if end > pos {
                    acc.push(d.subrange(pos, end))
                } else {
                    acc
                },
            )
        }
    }
}

/// A token table found by the probe.
struct ProbeTokenTable {
    offset: usize,
    entries: Vec<Vec<u8>>,
}

/// A names table found by the probe.
struct NamesTable {
    offset: usize,
}

/// Heuristic kallsyms probe over a kernel image.
pub struct KallsymsFinder<'a> {
    /// Raw kernel binary data.
    data: &'a [u8],
    /// Detected architecture.
    arch: KernelArch,
}

impl<'a> KallsymsFinder<'a> {
    /// The kernel data.
    pub closed spec fn data_view(&self) -> Seq<u8> {
        self.data@
    }

    /// The detected architecture.
    pub closed spec fn arch_view(&self) -> KernelArch {
        self.arch
    }

    /// Create a new finder for the given kernel binary, detecting its
    /// architecture from the image magic.
    pub fn new(data: &'a [u8]) -> (r: Self)
        ensures
            r.data_view() == data@,
            r.arch_view() == magic_arch(data@),
    {
        let arch = Self::detect_arch(data);
        KallsymsFinder { data, arch }
    }

    /// The detected architecture.
    pub fn arch(&self) -> (r: KernelArch)
        ensures
            r == self.arch_view(),
    {
        self.arch
    }

    /// Detect the kernel architecture from the image magic.
    ///
    /// An image of 0x25 to 0x27 bytes is too short for the zImage magic and
    /// is not matched against it.
    fn detect_arch(data: &[u8]) -> (r: KernelArch)
        ensures
            r == magic_arch(data@),
    {
        if data.len() > 0x40 && data[0x38] == 0x41 && data[0x39] == 0x52 && data[0x3A] == 0x4D
            && data[0x3B] == 0x64 {
            return KernelArch::Arm64;
        }
        if data.len() > 0x202 && data[0x1FE] == 0x55 && data[0x1FF] == 0xAA {
            return KernelArch::X86_64;
        }
        if data.len() >= 0x28 && data[0x24] == 0x18 && data[0x25] == 0x28 && data[0x26] == 0x6F
            && data[0x27] == 0x01 {
            return KernelArch::Arm32;
        }
        KernelArch::Unknown
    }

    /// Extract the kallsyms symbol table from the kernel.
    ///
    /// Always an error: "Could not locate token table" when none of the
    /// prefixes occurs, otherwise "Token index search not yet implemented".
    pub fn find_symbols(&self) -> (r: Result<KallsymsResult, Error>)
        ensures
            r matches Err(e) && e is KallsymsNotFound && e->KallsymsNotFound_0@ == (if has_probe_marker(
                self.data_view(),
            ) {
                "Token index search not yet implemented"@
            } else {
                "Could not locate token table"@
            }),
    {
        let token_table = match self.find_token_table() {
            Ok(t) => t,
            Err(e) => {
                return Err(e);
            },
        };
        let token_index = match self.find_token_index(token_table.offset) {
            Ok(i) => i,
            Err(e) => {
                return Err(e);
            },
        };
        let names_table = match self.find_names_table(token_index) {
            Ok(n) => n,
            Err(e) => {
                return Err(e);
            },
        };
        let addresses = match self.find_addresses(names_table.offset) {
            Ok(a) => a,
            Err(e) => {
                return Err(e);
            },
        };
        let symbols = self.decompress_symbols(&token_table, &names_table, &addresses);
        let kernel_base = if symbols.len() > 0 {
            symbols[0].address
        } else {
            0xFFFF_FFFF_8000_0000
        };
        Ok(KallsymsResult { symbol_count: symbols.len(), symbols, kernel_base, arch: self.arch })
    }

    /// The prefix `k` as bytes.
    fn marker(k: usize) -> (r: Vec<u8>)
        requires
            k < 4,
        ensures
            r@ == probe_marker(k as int),
    {
        let r = if k == 0 {
            vec![95u8, 95u8, 99u8, 102u8, 105u8, 95u8]
        } else if k == 1 {
            vec![95u8, 95u8, 107u8, 115u8, 116u8, 114u8, 116u8, 97u8, 98u8, 95u8]
        } else if k == 2 {
            vec![95u8, 95u8, 107u8, 115u8, 121u8, 109u8, 116u8, 97u8, 98u8, 95u8]
        } else {
            vec![95u8, 95u8, 105u8, 110u8, 105u8, 116u8, 99u8, 97u8, 108u8, 108u8, 95u8]
        };
        assert(r@ =~= probe_marker(k as int));
        r
    }

    /// Search for the token table: the first prefix that occurs locates it.
    fn find_token_table(&self) -> (r: Result<ProbeTokenTable, Error>)
        ensures
            match r {
                Ok(_) => has_probe_marker(self.data@),
                Err(e) => !has_probe_marker(self.data@) && e is KallsymsNotFound
                    && e->KallsymsNotFound_0@ == "Could not locate token table"@,
            },
    {
        let mut k: usize = 0;
        while k < 4
            invariant
                k <= 4,
                forall|m: int, i: int| 0 <= m < k ==> !bytes_occur_at(self.data@, probe_marker(m), i),
            decreases 4 - k,
        {
            let pattern = Self::marker(k);
            match self.find_pattern(&pattern) {
                Some(pos) => {
                    assert(bytes_occur_at(self.data@, probe_marker(k as int), pos as int));
                    let table_start = self.find_table_start(pos);
                    let entries = self.parse_token_table(table_start);
                    return Ok(ProbeTokenTable { offset: table_start, entries });
                },
                None => {},
            }
            k = k + 1;
        }
        Err(Error::KallsymsNotFound(text("Could not locate token table")))
    }

    /// The first position of `pattern` in the data.
    fn find_pattern(&self, pattern: &Vec<u8>) -> (r: Option<usize>)
        requires
            pattern@.len() > 0,
        ensures
            match r {
                Some(p) => bytes_occur_at(self.data@, pattern@, p as int) && forall|j: int|
                    0 <= j < p ==> !bytes_occur_at(self.data@, pattern@, j),
                None => forall|i: int| !bytes_occur_at(self.data@, pattern@, i),
            },
    {
        let n = pattern.len();
        if self.data.len() < n {
            return None;
        }
        let mut i: usize = 0;
        while i <= self.data.len() - n
            invariant
                n == pattern@.len(),
                n <= self.data@.len(),
                forall|j: int| 0 <= j < i ==> !bytes_occur_at(self.data@, pattern@, j),
            decreases self.data.len() - n + 1 - i,
        {
            let mut k: usize = 0;
            while k < n && self.data[i + k] == pattern[k]
                invariant
                    n == pattern@.len(),
                    i + n <= self.data@.len(),
                    i + n <= self.data.len(),
                    k <= n,
                    forall|m: int| 0 <= m < k ==> self.data@[i + m] == pattern@[m],
                decreases n - k,
            {
                k = k + 1;
            }
            if k == n {
                assert(self.data@.subrange(i as int, i + n) =~= pattern@);
                return Some(i);
            }
            assert(!bytes_occur_at(self.data@, pattern@, i as int)) by {
                if bytes_occur_at(self.data@, pattern@, i as int) {
                    assert(self.data@.subrange(i as int, i + n)[k as int] == pattern@[k as int]);
                }
            }
            i = i + 1;
        }
        None
    }

    /// Where the token table is taken to start: 2 KiB before the prefix.
    fn find_table_start(&self, known_pos: usize) -> (r: usize)
        ensures
            r == (if known_pos >= 2048 {
                known_pos - 2048
            } else {
                0
            }),
    {
        known_pos.saturating_sub(2048)
    }

    /// Parse up to 256 non-empty zero-terminated tokens from `offset`.
    fn parse_token_table(&self, offset: usize) -> (r: Vec<Vec<u8>>)
        ensures
            r@.map_values(|t: Vec<u8>| t@) == probe_tokens(self.data@, offset as int, Seq::empty()),
    {
        let ghost d = self.data@;
        let mut entries: Vec<Vec<u8>> = Vec::new();
        let mut pos = offset;
        assert(entries@.map_values(|t: Vec<u8>| t@) =~= Seq::<Seq<u8>>::empty());
        while entries.len() < 256 && pos < self.data.len()
            invariant
                d == self.data@,
                entries@.len() <= 256,
                probe_tokens(d, offset as int, Seq::empty()) == probe_tokens(
                    d,
                    pos as int,
                    entries@.map_values(|t: Vec<u8>| t@),
                ),
            decreases self.data.len() - pos,
        {
            let mut end = pos;
            while end < self.data.len() && self.data[end] != 0
                invariant
                    d == self.data@,
                    pos <= end <= d.len(),
                    forall|k: int| pos <= k < end ==> d[k] != 0,
                decreases self.data.len() - end,
            {
                end = end + 1;
            }
            proof {
                lemma_token_end_exact(d, pos as int, end as int);
            }
            let ghost before = entries@.map_values(|t: Vec<u8>| t@);
            if end > pos {
                let token = vstd::slice::slice_to_vec(vstd::slice::slice_subrange(self.data, pos, end));
                entries.push(token);
                assert(entries@.map_values(|t: Vec<u8>| t@) =~= before.push(d.subrange(pos as int, end as int)));
            }
            if end >= self.data.len() {
                proof {
                    let acc = entries@.map_values(|t: Vec<u8>| t@);
                    assert(probe_tokens(d, end + 1, acc) == acc);
                    assert(probe_tokens(d, end as int, acc) == acc);
                }
                pos = end;
            } else {
                pos = end + 1;
            }
        }
        entries
    }

    /// Locating the token index is not supported.
    fn find_token_index(&self, _token_table_offset: usize) -> (r: Result<usize, Error>)
        ensures
            r matches Err(e) && e is KallsymsNotFound && e->KallsymsNotFound_0@
                == "Token index search not yet implemented"@,
    {
        Err(Error::KallsymsNotFound(text("Token index search not yet implemented")))
    }

    /// Locating the names table is not supported.
    fn find_names_table(&self, _token_index_offset: usize) -> (r: Result<NamesTable, Error>)
        ensures
            r matches Err(e) && e is KallsymsNotFound && e->KallsymsNotFound_0@
                == "Names table search not yet implemented"@,
    {
        Err(Error::KallsymsNotFound(text("Names table search not yet implemented")))
    }

    /// Locating the addresses is not supported.
    fn find_addresses(&self, _names_offset: usize) -> (r: Result<Vec<u64>, Error>)
        ensures
            r matches Err(e) && e is KallsymsNotFound && e->KallsymsNotFound_0@
                == "Addresses search not yet implemented"@,
    {
        Err(Error::KallsymsNotFound(text("Addresses search not yet implemented")))
    }

    /// Decompressing symbols is not supported: no symbols.
    fn decompress_symbols(
        &self,
        _token_table: &ProbeTokenTable,
        _names_table: &NamesTable,
        _addresses: &Vec<u64>,
    ) -> (r: Vec<KernelSymbol>)
        ensures
            r@.len() == 0,
    {
        Vec::new()
    }
}

/// `token_end` is the first zero byte at or after `start`.
proof fn lemma_token_end_exact(d: Seq<u8>, start: int, end: int)
    requires
        0 <= start <= end <= d.len(),
        forall|k: int| start <= k < end ==> d[k] != 0,
        end == d.len() || d[end] == 0,
    ensures
        token_end(d, start) == end,
    decreases end - start,
{
    if start < end {
        lemma_token_end_exact(d, start + 1, end);
    }
}

} // verus!
