//! The analysis pipeline behind the application interface: boot image ->
//! kernel -> decompression -> kallsyms -> ELF, and a session that keeps
//! the recovered symbol table and answers filtered, sorted, paged queries
//! over it.

use crate::boot_image::{
    beyond_file_text, boot_magic, header_error, header_field, header_of, header_readable,
    starts_with_bytes, BootImage, BootImageHeader,
};
use crate::compression::{decompressed, Decompressor};
use crate::elf_builder::{elf_image, elf_params, elf_symbols_of, ElfBuilder};
use crate::error::Error;
use crate::kallsyms::decoder::{buffer_len_ok, SymbolView};
use crate::kallsyms::scanner::{config_of, detected_arch, scan_error_text, scan_found};
use crate::kallsyms::types::{symbol_type_char, KallsymsResult, KernelArch, KernelSymbol};
use crate::kallsyms::{
    decoded_entries, indexed_tokens, is_token_table_error, symbol_views, table_addresses,
    tokens_ok, KallsymsFinder,
};
use crate::symbol_order::{compare_rows, stably_sorted, RowView, SortColumn};
use crate::text::{chars_of, contains_chars, contains_text, text};
use vstd::prelude::*;

verus! {

/// A symbol table row for the application: address, name and type text.
#[derive(Debug, Clone)]
pub struct FrbKernelSymbol {
    /// Symbol virtual address.
    pub addr: u64,
    /// Symbol name.
    pub name: String,
    /// Symbol type string (e.g., "T", "t", "D").
    pub stype: String,
}

impl View for FrbKernelSymbol {
    type V = RowView;

    open spec fn view(&self) -> RowView {
        (self.addr, self.name@, self.stype@)
    }
}

impl FrbKernelSymbol {
    /// A copy of this row.
    pub fn duplicate(&self) -> (r: FrbKernelSymbol)
        ensures
            r@ == self@,
    {
        FrbKernelSymbol { addr: self.addr, name: self.name.clone(), stype: self.stype.clone() }
    }
}

/// The row a symbol gives: its address, name and type character.
pub open spec fn row_of(s: SymbolView) -> RowView {
    (s.0, s.1, seq![symbol_type_char(s.2)])
}

/// The views of a sequence of rows.
pub open spec fn row_views(v: Seq<FrbKernelSymbol>) -> Seq<RowView> {
    v.map_values(|s: FrbKernelSymbol| s@)
}

/// Lightweight summary of the analysis result.
#[derive(Debug, Clone)]
pub struct AnalysisSummary {
    /// Size of decompressed kernel bytes.
    pub kernel_size: usize,
    /// CPU architecture (e.g., Arm64).
    pub arch: String,
    /// Base address of the kernel code.
    pub kernel_base: u64,
    /// Total number of symbols found.
    pub symbol_count: usize,
}

/// A chunk of bytes for the hex viewer.
#[derive(Debug, Clone)]
pub struct HexChunk {
    /// Raw byte content.
    pub content: Vec<u8>,
    /// Starting offset in the data.
    pub offset: u64,
    /// Total size of the underlying data.
    pub total_size: u64,
}

/// Complete analysis result.
#[derive(Debug, Clone)]
pub struct AnalysisResult {
    /// Size of the decompressed kernel.
    pub kernel_size: usize,
    /// Detected architecture.
    pub arch: KernelArch,
    /// Kernel base address.
    pub kernel_base: u64,
    /// Number of recovered symbols.
    pub symbol_count: usize,
    /// All recovered symbols.
    pub symbols: Vec<KernelSymbol>,
    /// Generated ELF file bytes.
    pub elf_bytes: Vec<u8>,
}

/// The name an architecture prints with `{:?}`.
pub open spec fn arch_name(a: KernelArch) -> Seq<char> {
    match a {
        KernelArch::Arm64 => "Arm64"@,
        KernelArch::X86_64 => "X86_64"@,
        KernelArch::Arm32 => "Arm32"@,
        KernelArch::X86 => "X86"@,
        KernelArch::RiscV64 => "RiscV64"@,
        KernelArch::Unknown => "Unknown"@,
    }
}

/// The name of an architecture, as `{:?}` prints it.
pub fn arch_debug_name(a: KernelArch) -> (r: String)
    ensures
        r@ == arch_name(a),
{
    match a {
        KernelArch::Arm64 => text("Arm64"),
        KernelArch::X86_64 => text("X86_64"),
        KernelArch::Arm32 => text("Arm32"),
        KernelArch::X86 => text("X86"),
        KernelArch::RiscV64 => text("RiscV64"),
        KernelArch::Unknown => text("Unknown"),
    }
}

/// Whether `r` is what loading the kernel from the file bytes `raw` gives:
/// a boot image (`ANDROID!`) has its kernel extracted and decompressed;
/// anything else is decompressed as it is.
pub open spec fn kernel_loaded(raw: Seq<u8>, r: Result<Vec<u8>, Error>) -> bool {
    if starts_with_bytes(raw, boot_magic()) {
        if !header_readable(raw) {
            r matches Err(e) && header_error(raw, e)
        } else {
            let start = header_field(raw, 7) as int;
            let size = header_field(raw, 0) as int;
            if start + size > raw.len() {
                r matches Err(e) && e is InvalidBootImage && e->InvalidBootImage_0@
                    == beyond_file_text("Kernel"@, start, size, raw.len() as int)
            } else {
                decompressed(raw.subrange(start, start + size), r)
            }
        }
    } else {
        decompressed(raw, r)
    }
}

/// Whether `res` is the analysis of the kernel `k`: symbols found as the
/// finder finds them, and the ELF file built from them.
pub open spec fn analysis_of(k: Seq<u8>, res: AnalysisResult) -> bool {
    let arch = detected_arch(k);
    &&& scan_found(k, arch) matches Some(s) && table_addresses(k, s, config_of(s)) matches Ok(
        addrs,
    ) && tokens_ok(k, s.token_table_offset as int, s.token_index_offset as int) && {
        let cfg = config_of(s);
        let syms = decoded_entries(
            k,
            addrs,
            indexed_tokens(k, s.token_table_offset as int, s.token_index_offset as int),
            s.names_offset as int,
            s.num_symbols as int,
            s.num_symbols as int,
        );
        &&& symbol_views(res.symbols@) == syms
        &&& res.symbol_count == syms.len()
        &&& res.kernel_base == cfg.kernel_base
        &&& res.arch == cfg.arch
        &&& res.kernel_size == k.len()
        &&& elf_params(cfg.arch) matches Some((a, e)) && elf_image(
            a,
            e,
            Some((k, 4096u64)),
            elf_symbols_of(syms, cfg.kernel_base, syms.len() as int),
        ) == Ok::<Seq<u8>, Seq<char>>(res.elf_bytes@)
    }
}

/// Whether `e` is the error analysing the kernel `k` gives: the finder's
/// error, or the ELF builder's.
pub open spec fn analysis_error(k: Seq<u8>, e: Error) -> bool {
    let arch = detected_arch(k);
    match scan_found(k, arch) {
        None => e is KallsymsNotFound && e->KallsymsNotFound_0@ == scan_error_text(k, arch),
        Some(s) => match table_addresses(k, s, config_of(s)) {
            Err(t) => e is KallsymsNotFound && e->KallsymsNotFound_0@ == t,
            Ok(addrs) => if !tokens_ok(k, s.token_table_offset as int, s.token_index_offset as int) {
                is_token_table_error(k, s.token_table_offset as int, s.token_index_offset, e)
            } else {
                let cfg = config_of(s);
                let syms = decoded_entries(
                    k,
                    addrs,
                    indexed_tokens(k, s.token_table_offset as int, s.token_index_offset as int),
                    s.names_offset as int,
                    s.num_symbols as int,
                    s.num_symbols as int,
                );
                match elf_params(cfg.arch) {
                    None => e is UnsupportedArch && e->UnsupportedArch_0@
                        == "Cannot determine ELF architecture"@,
                    Some((a, en)) => elf_image(
                        a,
                        en,
                        Some((k, 4096u64)),
                        elf_symbols_of(syms, cfg.kernel_base, syms.len() as int),
                    ) matches Err(t) && e is ElfBuildError && e->ElfBuildError_0@ == t,
                }
            },
        },
    }
}

/// Whether `raw` starts with `ANDROID!`, compared byte by byte.
fn starts_with_boot_magic(raw: &[u8]) -> (r: bool)
    ensures
        r == starts_with_bytes(raw@, boot_magic()),
{
    if raw.len() < 8 {
        return false;
    }
    let ok = raw[0] == 0x41 && raw[1] == 0x4E && raw[2] == 0x44 && raw[3] == 0x52 && raw[4] == 0x4F
        && raw[5] == 0x49 && raw[6] == 0x44 && raw[7] == 0x21;
    if ok {
        assert(raw@.subrange(0, 8) =~= boot_magic());
    } else {
        assert(raw@.subrange(0, 8) != boot_magic()) by {
            if raw@.subrange(0, 8) == boot_magic() {
                assert(raw@.subrange(0, 8)[0] == raw@[0]);
            }
        }
    }
    ok
}

/// Load the kernel from file bytes: extract it from a boot image if the
/// bytes are one, then decompress it.
fn load_kernel(raw: Vec<u8>) -> (r: Result<Vec<u8>, Error>)
    requires
        buffer_len_ok(raw@.len() as int),
    ensures
        kernel_loaded(raw@, r),
        r matches Ok(k) ==> buffer_len_ok(k@.len() as int),
{
    if starts_with_boot_magic(raw.as_slice()) {
        let ghost d = raw@;
        let boot_img = match BootImage::from_bytes(raw) {
            Ok(b) => b,
            Err(e) => {
                return Err(e);
            },
        };
        let kernel = match boot_img.extract_kernel() {
            Ok(k) => k,
            Err(e) => {
                return Err(e);
            },
        };
        Decompressor::decompress(kernel)
    } else {
        Decompressor::decompress(raw.as_slice())
    }
}

/// Full analysis pipeline over the bytes of a file: load the kernel, find
/// its symbols, and build the ELF file.
pub fn analyze_kernel_bytes(raw: Vec<u8>) -> (r: Result<AnalysisResult, Error>)
    requires
        buffer_len_ok(raw@.len() as int),
    ensures
        match r {
            Ok(res) => exists|k: Vec<u8>|
                kernel_loaded(raw@, Ok::<Vec<u8>, Error>(k)) && analysis_of(k@, res),
            Err(e) => kernel_loaded(raw@, Err::<Vec<u8>, Error>(e)) || exists|k: Vec<u8>|
                kernel_loaded(raw@, Ok::<Vec<u8>, Error>(k)) && analysis_error(k@, e),
        },
{
    let kernel_data = match load_kernel(raw) {
        Ok(k) => k,
        Err(e) => {
            return Err(e);
        },
    };
    let finder = match KallsymsFinder::new(kernel_data.as_slice()) {
        Ok(f) => f,
        Err(e) => {
            return Err(e);
        },
    };
    let kallsyms = finder.into_result();
    let elf_bytes = match ElfBuilder::new(kernel_data.as_slice(), &kallsyms).build() {
        Ok(b) => b,
        Err(e) => {
            return Err(e);
        },
    };
    Ok(
        AnalysisResult {
            kernel_size: kernel_data.len(),
            arch: kallsyms.arch,
            kernel_base: kallsyms.kernel_base,
            symbol_count: kallsyms.symbol_count,
            symbols: kallsyms.symbols,
            elf_bytes,
        },
    )
}

/// The header of the boot image in `data`.
pub fn get_boot_info(data: Vec<u8>) -> (r: Result<BootImageHeader, Error>)
    ensures
        match r {
            Ok(h) => data@.len() >= 8 && starts_with_bytes(data@, boot_magic()) && header_readable(
                data@,
            ) && header_of(data@, h),
            Err(e) => crate::boot_image::boot_image_error(data@, e),
        },
{
    match BootImage::from_bytes(data) {
        Ok(img) => Ok(img.into_header()),
        Err(e) => Err(e),
    }
}

/// The text `String::to_lowercase` makes of `s`.
pub uninterp spec fn lowercase_text(s: Seq<char>) -> Seq<char>;

/// `str::to_lowercase`: the Unicode lowercase of the text.
///
/// Claimed: the result depends on the text alone; what the Unicode
/// mapping is, is left unsaid.
#[verifier::external_body]
fn to_lowercase(s: &str) -> (r: String)
    ensures
        r@ == lowercase_text(s@),
{
    s.to_lowercase()
}

/// Whether a row passes the filter: an empty filter passes every row;
/// otherwise the lowercase name contains the lowercase filter.
pub open spec fn passes_filter(name: Seq<char>, filter: Seq<char>) -> bool {
    filter.len() == 0 || contains_text(lowercase_text(name), lowercase_text(filter))
}

/// The indices, in order, of the first `k` rows that pass the filter.
pub open spec fn filtered_indices(rows: Seq<RowView>, filter: Seq<char>, k: int) -> Seq<usize>
    decreases k,
{
    if k <= 0 {
        Seq::empty()
    } else {
        filtered_indices(rows, filter, k - 1) + if passes_filter(rows[k - 1].1, filter) {
            seq![(k - 1) as usize]
        } else {
            Seq::empty()
        }
    }
}

/// The page `page` of `page_size` rows of `order`: empty past the end.
pub open spec fn page_of(order: Seq<usize>, page: int, page_size: int) -> Seq<usize> {
    let start = page * page_size;
    if start >= order.len() {
        Seq::empty()
    } else {
        let end = if start + page_size < order.len() {
            start + page_size
        } else {
            order.len() as int
        };
        order.subrange(start, end)
    }
}

/// Sorts the row indices `order` stably by the rows' order, with the
/// slice's `sort_by`.
///
/// Claimed of std: `sort_by` is a stable sort (the order of `compare_rows`
/// is a total order on rows), so the result holds the same indices, in
/// order, equal rows keeping their relative order.
#[verifier::external_body]
fn sort_rows(
    order: &mut Vec<usize>,
    rows: &Vec<FrbKernelSymbol>,
    column: SortColumn,
    ascending: bool,
)
    requires
        forall|i: int| 0 <= i < old(order)@.len() ==> old(order)@[i] < rows@.len(),
        forall|i: int, j: int| 0 <= i < j < old(order)@.len() ==> old(order)@[i] < old(order)@[j],
    ensures
        stably_sorted(row_views(rows@), column, ascending, old(order)@, final(order)@),
{
    order.sort_by(
        |x, y|
            compare_rows(
                rows[*x].addr,
                rows[*x].name.as_str(),
                rows[*x].stype.as_str(),
                rows[*y].addr,
                rows[*y].name.as_str(),
                rows[*y].stype.as_str(),
                column,
                ascending,
            ),
    );
}

/// Stateful session that holds the analysis data, so that the application
/// can query the symbol table page by page.
pub struct AnalysisSession {
    symbols: Vec<FrbKernelSymbol>,
    /// Summary of the analysis.
    pub summary: AnalysisSummary,
    /// The generated ELF bytes.
    pub elf_bytes: Vec<u8>,
}

impl AnalysisSession {
    /// The symbol table rows.
    pub closed spec fn rows(&self) -> Seq<RowView> {
        row_views(self.symbols@)
    }

    /// The summary.
    pub closed spec fn summary_view(&self) -> AnalysisSummary {
        self.summary
    }

    /// The ELF bytes.
    pub closed spec fn elf_view(&self) -> Seq<u8> {
        self.elf_bytes@
    }

    /// Start a session over the bytes of a kernel or boot image file: the
    /// full analysis, its symbols turned into rows.
    pub fn from_bytes(raw: Vec<u8>) -> (r: Result<AnalysisSession, Error>)
        requires
            buffer_len_ok(raw@.len() as int),
        ensures
            match r {
                Ok(s) => exists|k: Vec<u8>, res: AnalysisResult|
                    kernel_loaded(raw@, Ok::<Vec<u8>, Error>(k)) && analysis_of(k@, res) && s.rows()
                        == symbol_views(res.symbols@).map_values(|v: SymbolView| row_of(v))
                        && s.summary_view().kernel_size == res.kernel_size
                        && s.summary_view().arch@ == arch_name(res.arch)
                        && s.summary_view().kernel_base == res.kernel_base
                        && s.summary_view().symbol_count == res.symbol_count && s.elf_view()
                        == res.elf_bytes@,
                Err(e) => kernel_loaded(raw@, Err::<Vec<u8>, Error>(e)) || exists|k: Vec<u8>|
                    kernel_loaded(raw@, Ok::<Vec<u8>, Error>(k)) && analysis_error(k@, e),
            },
    {
        let res = match analyze_kernel_bytes(raw) {
            Ok(res) => res,
            Err(e) => {
                return Err(e);
            },
        };
        let mut symbols: Vec<FrbKernelSymbol> = Vec::new();
        let mut i: usize = 0;
        while i < res.symbols.len()
            invariant
                i <= res.symbols@.len(),
                row_views(symbols@) == symbol_views(res.symbols@).take(i as int).map_values(
                    |v: SymbolView| row_of(v),
                ),
            decreases res.symbols.len() - i,
        {
            let s = &res.symbols[i];
            let row = FrbKernelSymbol {
                addr: s.address,
                name: s.name.clone(),
                stype: s.sym_type.to_display_string(),
            };
            let ghost prev = row_views(symbols@);
            symbols.push(row);
            assert(row_views(symbols@) =~= prev.push(row@));
            assert(symbol_views(res.symbols@).take(i + 1) =~= symbol_views(res.symbols@).take(
                i as int,
            ).push(res.symbols@[i as int]@));
            i = i + 1;
            assert(row_views(symbols@) =~= symbol_views(res.symbols@).take(i as int).map_values(
                |v: SymbolView| row_of(v),
            ));
        }
        assert(symbol_views(res.symbols@).take(i as int) =~= symbol_views(res.symbols@));
        let summary = AnalysisSummary {
            kernel_size: res.kernel_size,
            arch: arch_debug_name(res.arch),
            kernel_base: res.kernel_base,
            symbol_count: res.symbol_count,
        };
        Ok(AnalysisSession { symbols, summary, elf_bytes: res.elf_bytes })
    }

    /// The indices of the rows that pass the filter.
    fn filtered(&self, filter: &str) -> (r: Vec<usize>)
        ensures
            r@ == filtered_indices(self.rows(), filter@, self.rows().len() as int),
    {
        let all = filter.is_empty();
        let lower_filter = chars_of(to_lowercase(filter).as_str());
        let mut out: Vec<usize> = Vec::new();
        let mut i: usize = 0;
        while i < self.symbols.len()
            invariant
                i <= self.symbols@.len(),
                all == (filter@.len() == 0),
                lower_filter@ == lowercase_text(filter@),
                out@ == filtered_indices(self.rows(), filter@, i as int),
            decreases self.symbols.len() - i,
        {
            let keep = if all {
                true
            } else {
                let lower_name = chars_of(to_lowercase(self.symbols[i].name.as_str()).as_str());
                contains_chars(&lower_name, &lower_filter)
            };
            if keep {
                out.push(i);
            }
            proof {
                assert(self.rows()[i as int].1 == self.symbols@[i as int].name@);
            }
            i = i + 1;
            assert(out@ =~= filtered_indices(self.rows(), filter@, i as int));
        }
        out
    }

    /// Query the symbol table: the rows that pass the filter (by lowercase
    /// name), stably sorted by `sort_by` (reversed when descending), page
    /// `page` of `page_size` rows.
    pub fn query_symbols(
        &self,
        filter: String,
        sort_by: SortColumn,
        ascending: bool,
        page: usize,
        page_size: usize,
    ) -> (r: Vec<FrbKernelSymbol>)
        requires
            page * page_size <= usize::MAX,
            page * page_size < self.rows().len() ==> page * page_size + page_size <= usize::MAX,
        ensures
            exists|order: Seq<usize>|
                stably_sorted(
                    self.rows(),
                    sort_by,
                    ascending,
                    filtered_indices(self.rows(), filter@, self.rows().len() as int),
                    order,
                ) && row_views(r@) == page_of(order, page as int, page_size as int).map_values(
                    |i: usize| self.rows()[i as int],
                ),
    {
        let mut order = self.filtered(filter.as_str());
        proof {
            assert(self.rows().len() == self.symbols.len());
            lemma_filtered_indices_increasing(self.rows(), filter@, self.rows().len() as int);
        }
        sort_rows(&mut order, &self.symbols, sort_by, ascending);
        let ghost sorted = order@;
        proof {
            lemma_sorted_in_range(
                self.rows(),
                sort_by,
                ascending,
                filtered_indices(self.rows(), filter@, self.rows().len() as int),
                sorted,
            );
        }
        let start = page * page_size;
        assert(order@.len() <= self.rows().len()) by {
            let f = filtered_indices(self.rows(), filter@, self.rows().len() as int);
            sorted.to_multiset_ensures();
            f.to_multiset_ensures();
        }
        if start >= order.len() {
            let empty: Vec<FrbKernelSymbol> = Vec::new();
            assert(row_views(empty@) =~= page_of(sorted, page as int, page_size as int).map_values(
                |i: usize| self.rows()[i as int],
            ));
            return empty;
        }
        let end = if start + page_size < order.len() {
            start + page_size
        } else {
            order.len()
        };
        let mut out: Vec<FrbKernelSymbol> = Vec::new();
        let mut k = start;
        while k < end
            invariant
                start <= k <= end <= sorted.len(),
                order@ == sorted,
                forall|i: int| 0 <= i < sorted.len() ==> sorted[i] < self.symbols@.len(),
                row_views(out@) == sorted.subrange(start as int, k as int).map_values(
                    |i: usize| self.rows()[i as int],
                ),
            decreases end - k,
        {
            let row = self.symbols[order[k]].duplicate();
            let ghost prev = row_views(out@);
            out.push(row);
            assert(row_views(out@) =~= prev.push(row@));
            k = k + 1;
            assert(row_views(out@) =~= sorted.subrange(start as int, k as int).map_values(
                |i: usize| self.rows()[i as int],
            ));
        }
        out
    }

    /// The number of rows that pass the filter.
    pub fn count_filtered(&self, filter: String) -> (r: usize)
        ensures
            r == filtered_indices(self.rows(), filter@, self.rows().len() as int).len(),
    {
        if filter.as_str().is_empty() {
            proof {
                assert(self.rows().len() == self.symbols.len());
                law_empty_filter_keeps_all_rows(self.rows(), filter@, self.rows().len() as int);
            }
            self.symbols.len()
        } else {
            self.filtered(filter.as_str()).len()
        }
    }

    /// The bytes of the ELF file from `offset`, at most `length` of them,
    /// clipped to its end.
    pub fn get_hex_chunk(&self, offset: usize, length: usize) -> (r: HexChunk)
        requires
            offset + length <= usize::MAX,
        ensures
            ({
                let n = self.elf_view().len() as int;
                let start = if offset < n {
                    offset as int
                } else {
                    n
                };
                let end = if offset + length < n {
                    offset + length
                } else {
                    n
                };
                &&& r.content@ == self.elf_view().subrange(start, end)
                &&& r.offset == start
                &&& r.total_size == n
            }),
    {
        let n = self.elf_bytes.len();
        let start = if offset < n {
            offset
        } else {
            n
        };
        let end = if offset + length < n {
            offset + length
        } else {
            n
        };
        HexChunk {
            content: vstd::slice::slice_to_vec(
                vstd::slice::slice_subrange(self.elf_bytes.as_slice(), start, end),
            ),
            offset: start as u64,
            total_size: n as u64,
        }
    }
}

/// The filtered indices increase strictly and lie below `k`.
proof fn lemma_filtered_indices_increasing(rows: Seq<RowView>, filter: Seq<char>, k: int)
    requires
        0 <= k <= rows.len(),
        k <= usize::MAX,
    ensures
        filtered_indices(rows, filter, k).len() <= k,
        forall|i: int|
            0 <= i < filtered_indices(rows, filter, k).len() ==> filtered_indices(rows, filter, k)[i]
                < k,
        forall|i: int, j: int|
            0 <= i < j < filtered_indices(rows, filter, k).len() ==> filtered_indices(
                rows,
                filter,
                k,
            )[i] < filtered_indices(rows, filter, k)[j],
    decreases k,
{
    if k > 0 {
        lemma_filtered_indices_increasing(rows, filter, k - 1);
        let prev = filtered_indices(rows, filter, k - 1);
        let all = filtered_indices(rows, filter, k);
        assert(all.len() <= prev.len() + 1);
        assert(((k - 1) as usize) as int == k - 1);
        assert forall|i: int| 0 <= i < all.len() implies all[i] < k by {
            if i < prev.len() {
                assert(all[i] == prev[i]);
            }
        }
        assert forall|i: int, j: int| 0 <= i < j < all.len() implies all[i] < all[j] by {
            if j < prev.len() {
                assert(all[i] == prev[i] && all[j] == prev[j]);
            } else {
                assert(all[i] == prev[i]);
            }
        }
    }
}

/// With an empty filter every row passes, in order.
pub proof fn law_empty_filter_keeps_all_rows(rows: Seq<RowView>, filter: Seq<char>, k: int)
    requires
        filter.len() == 0,
        0 <= k <= usize::MAX,
    ensures
        filtered_indices(rows, filter, k).len() == k,
        forall|i: int| 0 <= i < k ==> filtered_indices(rows, filter, k)[i] == i,
    decreases k,
{
    if k > 0 {
        law_empty_filter_keeps_all_rows(rows, filter, k - 1);
        assert(((k - 1) as usize) as int == k - 1);
    }
}

/// Paging walks the whole order: row `i` of the order is row `i %
/// page_size` of page `i / page_size`.
pub proof fn law_pages_cover_order(order: Seq<usize>, page_size: int, i: int)
    requires
        page_size > 0,
        0 <= i < order.len(),
    ensures
        i % page_size < page_of(order, i / page_size, page_size).len(),
        page_of(order, i / page_size, page_size)[i % page_size] == order[i],
{
    let p = i / page_size;
    let k = i % page_size;
    assert(p * page_size + k == i && 0 <= k < page_size) by (nonlinear_arith)
        requires
            page_size > 0,
            p == i / page_size,
            k == i % page_size,
    ;
}

/// Pages `0..k` of `order`, one after the other.
pub open spec fn pages_upto(order: Seq<usize>, page_size: int, k: int) -> Seq<usize>
    decreases k,
{
    if k <= 0 {
        Seq::empty()
    } else {
        pages_upto(order, page_size, k - 1) + page_of(order, k - 1, page_size)
    }
}

/// The first `k` pages are the order's first `k * page_size` entries (all
/// of them once that runs past the end).
proof fn lemma_pages_upto(order: Seq<usize>, page_size: int, k: int)
    requires
        page_size > 0,
        k >= 0,
    ensures
        pages_upto(order, page_size, k) == order.subrange(
            0,
            if k * page_size < order.len() {
                k * page_size
            } else {
                order.len() as int
            },
        ),
    decreases k,
{
    if k == 0 {
        assert(k * page_size == 0);
        assert(order.subrange(0, 0) =~= Seq::<usize>::empty());
    } else {
        lemma_pages_upto(order, page_size, k - 1);
        assert(k * page_size == (k - 1) * page_size + page_size) by (nonlinear_arith);
        assert((k - 1) * page_size >= 0) by (nonlinear_arith)
            requires
                k >= 1,
                page_size > 0,
        ;
        let prev = pages_upto(order, page_size, k - 1);
        let pg = page_of(order, k - 1, page_size);
        assert(prev + pg =~= order.subrange(
            0,
            if k * page_size < order.len() {
                k * page_size
            } else {
                order.len() as int
            },
        ));
    }
}

/// Paging walks the whole order once: with `n` entries, pages `0` to
/// `ceil(n / page_size) - 1` put one after the other give back the order;
/// page `k` holds `min(page_size, n - k * page_size)` entries while
/// `k * page_size < n`, and none after. Every query pages through the same
/// order, the unique stable sort of the filtered rows.
pub proof fn law_pages_concatenate(order: Seq<usize>, page_size: int)
    requires
        page_size > 0,
    ensures
        pages_upto(order, page_size, (order.len() + page_size - 1) / page_size) == order,
        forall|k: int|
            k >= 0 ==> #[trigger] page_of(order, k, page_size).len() == (if k * page_size
                >= order.len() {
                0
            } else if page_size < order.len() - k * page_size {
                page_size
            } else {
                order.len() - k * page_size
            }),
{
    let n = order.len() as int;
    let c = (n + page_size - 1) / page_size;
    assert(c >= 0 && c * page_size >= n) by (nonlinear_arith)
        requires
            page_size > 0,
            n >= 0,
            c == (n + page_size - 1) / page_size,
    ;
    lemma_pages_upto(order, page_size, c);
    assert(order.subrange(0, n) =~= order);
    assert forall|k: int| k >= 0 implies #[trigger] page_of(order, k, page_size).len() == (if k
        * page_size >= order.len() {
        0
    } else if page_size < order.len() - k * page_size {
        page_size
    } else {
        order.len() - k * page_size
    }) by {
        assert(k * page_size >= 0) by (nonlinear_arith)
            requires
                k >= 0,
                page_size > 0,
        ;
    }
}

/// A stable sort of in-range indices holds in-range indices.
proof fn lemma_sorted_in_range(
    rows: Seq<RowView>,
    column: SortColumn,
    ascending: bool,
    before: Seq<usize>,
    after: Seq<usize>,
)
    requires
        forall|i: int| 0 <= i < before.len() ==> before[i] < rows.len(),
        stably_sorted(rows, column, ascending, before, after),
    ensures
        forall|i: int| 0 <= i < after.len() ==> after[i] < rows.len(),
{
    assert forall|i: int| 0 <= i < after.len() implies after[i] < rows.len() by {
        after.to_multiset_ensures();
        before.to_multiset_ensures();
        assert(after.to_multiset().count(after[i]) > 0);
        assert(before.to_multiset().count(after[i]) > 0);
        assert(before.contains(after[i]));
    }
}

} // verus!
