//! Kallsyms symbol recovery: scanning, configuration, token recovery and
//! symbol decoding.

pub mod types;

pub use types::{
    AddressFormat, KallsymsConfig, KallsymsError, KallsymsResult, KernelArch, KernelSymbol,
    SymbolType,
};

pub mod arch;
pub mod decoder;
pub mod scanner;
mod traits;

pub use decoder::SymbolIterator;
pub use traits::{AddressParser, RelativeAddressParser};

use crate::error::Error;
use crate::kallsyms::arch::bin32::abs32_addresses;
use crate::kallsyms::arch::bin64::abs64_addresses;
use crate::kallsyms::arch::relative::relative_addresses;
use crate::kallsyms::arch::{Bin32Parser, Bin64Parser, RelativeParser};
use crate::kallsyms::decoder::{
    buffer_len_ok, decode_symbol_name, decoded_name, index_entry_ok, indexed_token, iter_all,
    iter_step, lemma_step_advances, sat_add, sat_sub, SymbolView, TokenTable,
};
use crate::kallsyms::scanner::{
    config_of, detect_architecture, detected_arch, infer_config, scan_error_text, scan_found,
    scan_for_kallsyms, ScanResult,
};
use crate::kallsyms::traits::table_fits;
use crate::kallsyms::types::kallsyms_error_text;
use crate::byte_io::le16;
use crate::text::{chars_of, starts_with_chars, starts_with_text};
use rayon::prelude::{IntoParallelIterator, ParallelIterator};
use vstd::prelude::*;

verus! {

/// The addresses the configuration `cfg` reads from the table a scan
/// found, or the text of the error when the table runs past the data.
pub open spec fn table_addresses(d: Seq<u8>, s: ScanResult, cfg: KallsymsConfig) -> Result<
    Seq<u64>,
    Seq<char>,
> {
    let off = s.addresses_offset as int;
    let n = s.num_symbols as int;
    let width: int = if cfg.format == AddressFormat::Absolute64 {
        8
    } else {
        4
    };
    if !table_fits(off, n, width, d.len() as int) {
        Err(
            kallsyms_error_text(
                KallsymsError::UnexpectedEof { offset: s.addresses_offset, needed: width as usize },
            ),
        )
    } else {
        match cfg.format {
            AddressFormat::Absolute32 => Ok(abs32_addresses(d, off, n)),
            AddressFormat::Absolute64 => Ok(abs64_addresses(d, off, n)),
            AddressFormat::Relative32 => Ok(
                relative_addresses(
                    d,
                    off,
                    n,
                    match cfg.relative_base {
                        Some(b) => b,
                        None => 0,
                    },
                ),
            ),
        }
    }
}

/// Whether every entry of the token index at `io` is readable and points
/// inside the data.
pub open spec fn tokens_ok(d: Seq<u8>, to: int, io: int) -> bool {
    forall|i: int| 0 <= i < 256 ==> index_entry_ok(d, to, io, i)
}

/// The 256 tokens the index at `io` gives into the table at `to`.
pub open spec fn indexed_tokens(d: Seq<u8>, to: int, io: int) -> Seq<Seq<u8>> {
    Seq::new(256, |i: int| indexed_token(d, to, io, i))
}

/// Whether `e` is the error reading the token index gives: the first bad
/// entry is either past the data (`UnexpectedEof`) or points past it
/// (`IndexOutOfBounds`).
pub open spec fn is_token_table_error(d: Seq<u8>, to: int, io: usize, e: Error) -> bool {
    exists|i: int|
        0 <= i < 256 && !index_entry_ok(d, to, io as int, i) && (forall|j: int|
            0 <= j < i ==> index_entry_ok(d, to, io as int, j)) && e is KallsymsNotFound && (if io
            + i * 2 + 2 <= d.len() {
            e->KallsymsNotFound_0@ == kallsyms_error_text(
                KallsymsError::IndexOutOfBounds {
                    index: sat_add(to, le16(d, io + i * 2)),
                    max: d.len() as usize,
                },
            )
        } else {
            e->KallsymsNotFound_0@ == kallsyms_error_text(
                KallsymsError::UnexpectedEof { offset: io, needed: 2 },
            )
        })
}

/// The first symbol of `s` at address `addr`.
pub open spec fn first_at_address(s: Seq<SymbolView>, addr: u64) -> Option<SymbolView>
    decreases s.len(),
{
    if s.len() == 0 {
        None
    } else if s[0].0 == addr {
        Some(s[0])
    } else {
        first_at_address(s.drop_first(), addr)
    }
}

/// The symbols of `s` whose name starts with `prefix`, in order.
pub open spec fn with_prefix(s: Seq<SymbolView>, prefix: Seq<char>) -> Seq<SymbolView>
    decreases s.len(),
{
    if s.len() == 0 {
        Seq::empty()
    } else {
        (if starts_with_text(s[0].1, prefix) {
            seq![s[0]]
        } else {
            Seq::empty()
        }) + with_prefix(s.drop_first(), prefix)
    }
}

/// Symbol `i` of `n` with names at `no`: its address (0 past the
/// addresses), decoded name and type, and the distance to the next
/// address; or the error text.
pub open spec fn symbol_entry(
    d: Seq<u8>,
    a: Seq<u64>,
    t: Seq<Seq<u8>>,
    no: int,
    n: int,
    i: int,
) -> Result<SymbolView, Seq<char>> {
    if i >= n {
        Err(
            kallsyms_error_text(
                KallsymsError::IndexOutOfBounds { index: i as usize, max: n as usize },
            ),
        )
    } else {
        let addr = if 0 <= i < a.len() {
            a[i]
        } else {
            0
        };
        match decoded_name(d, no, i, t) {
            Ok((name, ty)) => Ok(
                (
                    addr,
                    name,
                    ty,
                    if i + 1 < a.len() {
                        Some(sat_sub(a[i + 1], addr))
                    } else {
                        None
                    },
                ),
            ),
            Err(e) => Err(e),
        }
    }
}

/// The symbols among the first `k` of `n` that decode, in order.
pub open spec fn decoded_entries(
    d: Seq<u8>,
    a: Seq<u64>,
    t: Seq<Seq<u8>>,
    no: int,
    n: int,
    k: int,
) -> Seq<SymbolView>
    decreases k,
{
    if k <= 0 {
        Seq::empty()
    } else {
        decoded_entries(d, a, t, no, n, k - 1) + match symbol_entry(d, a, t, no, n, k - 1) {
            Ok(v) => seq![v],
            Err(_) => Seq::empty(),
        }
    }
}

/// The views of a sequence of symbols.
pub open spec fn symbol_views(v: Seq<KernelSymbol>) -> Seq<SymbolView> {
    v.map_values(|s: KernelSymbol| s@)
}

/// High-level interface for kallsyms symbol recovery: scanning,
/// configuration, token recovery and symbol decoding.
pub struct KallsymsFinder<'a> {
    /// Raw kernel binary data.
    data: &'a [u8],
    /// Detected configuration.
    config: KallsymsConfig,
    /// Parsed token table for name decompression.
    tokens: TokenTable<'a>,
    /// Parsed addresses table.
    addresses: Vec<u64>,
    /// Offset to the names table in the data.
    names_offset: usize,
    /// Number of symbols.
    num_symbols: usize,
}

impl<'a> KallsymsFinder<'a> {
    /// The kernel data never exceeds what a slice can hold.
    #[verifier::type_invariant]
    spec fn data_fits(self) -> bool {
        buffer_len_ok(self.data@.len() as int)
    }

    /// The kernel data.
    pub closed spec fn data_view(&self) -> Seq<u8> {
        self.data@
    }

    /// The detected configuration.
    pub closed spec fn config_view(&self) -> KallsymsConfig {
        self.config
    }

    /// The symbol addresses.
    pub closed spec fn addresses_view(&self) -> Seq<u64> {
        self.addresses@
    }

    /// The tokens names are expanded with.
    pub closed spec fn tokens_view(&self) -> Seq<Seq<u8>> {
        self.tokens@
    }

    /// Where the names table starts.
    pub closed spec fn names_offset_view(&self) -> int {
        self.names_offset as int
    }

    /// The number of symbols the scan found.
    pub closed spec fn count_view(&self) -> int {
        self.num_symbols as int
    }

    /// Symbol `i` of this finder.
    pub open spec fn symbol_spec(&self, i: int) -> Result<SymbolView, Seq<char>> {
        symbol_entry(
            self.data_view(),
            self.addresses_view(),
            self.tokens_view(),
            self.names_offset_view(),
            self.count_view(),
            i,
        )
    }

    /// The symbols among the first `k` of this finder that decode.
    pub open spec fn decoded_symbols(&self, k: int) -> Seq<SymbolView> {
        decoded_entries(
            self.data_view(),
            self.addresses_view(),
            self.tokens_view(),
            self.names_offset_view(),
            self.count_view(),
            k,
        )
    }

    /// The symbols a walk of the names table yields, in order.
    pub open spec fn walked_symbols(&self) -> Seq<SymbolView> {
        iter_all(
            self.data_view(),
            self.addresses_view(),
            self.tokens_view(),
            0,
            self.names_offset_view(),
        )
    }

    /// Create a new finder and perform the initial scanning.
    ///
    /// The architecture is detected, the kallsyms tables are found, the
    /// address format is inferred, the addresses table is read and the
    /// token table is parsed; the first step that fails gives the error.
    pub fn new(data: &'a [u8]) -> (r: Result<Self, Error>)
        requires
            buffer_len_ok(data@.len() as int),
        ensures
            match r {
                Ok(f) => scan_found(data@, detected_arch(data@)) matches Some(s) && f.data_view()
                    == data@ && f.config_view() == config_of(s) && table_addresses(
                    data@,
                    s,
                    config_of(s),
                ) == Ok::<Seq<u64>, Seq<char>>(f.addresses_view()) && tokens_ok(
                    data@,
                    s.token_table_offset as int,
                    s.token_index_offset as int,
                ) && f.tokens_view() == indexed_tokens(
                    data@,
                    s.token_table_offset as int,
                    s.token_index_offset as int,
                ) && f.names_offset_view() == s.names_offset && f.count_view() == s.num_symbols,
                Err(e) => e is KallsymsNotFound && match scan_found(data@, detected_arch(data@)) {
                    None => e->KallsymsNotFound_0@ == scan_error_text(data@, detected_arch(data@)),
                    Some(s) => match table_addresses(data@, s, config_of(s)) {
                        Err(t) => e->KallsymsNotFound_0@ == t,
                        Ok(_) => !tokens_ok(
                            data@,
                            s.token_table_offset as int,
                            s.token_index_offset as int,
                        ) && is_token_table_error(
                            data@,
                            s.token_table_offset as int,
                            s.token_index_offset,
                            e,
                        ),
                    },
                },
            },
    {
        let arch = detect_architecture(data);
        let scan_result = match scan_for_kallsyms(data, arch) {
            Ok(s) => s,
            Err(e) => {
                return Err(e);
            },
        };
        let config = match infer_config(&scan_result) {
            Ok(c) => c,
            Err(e) => {
                return Err(e);
            },
        };
        let addresses = match Self::parse_addresses(data, &scan_result, &config) {
            Ok(a) => a,
            Err(e) => {
                return Err(e);
            },
        };
        let tokens = match TokenTable::parse(
            data,
            scan_result.token_table_offset,
            scan_result.token_index_offset,
        ) {
            Ok(t) => t,
            Err(e) => {
                proof {
                    let to = scan_result.token_table_offset as int;
                    let io = scan_result.token_index_offset;
                    let i = choose|i: int|
                        0 <= i < 256 && !index_entry_ok(data@, to, io as int, i) && (forall|j: int|
                            0 <= j < i ==> index_entry_ok(data@, to, io as int, j)) && e is KallsymsNotFound
                            && (if io + i * 2 + 2 <= data@.len() {
                            e->KallsymsNotFound_0@ == kallsyms_error_text(
                                KallsymsError::IndexOutOfBounds {
                                    index: sat_add(to, le16(data@, io + i * 2)),
                                    max: data@.len() as usize,
                                },
                            )
                        } else {
                            e->KallsymsNotFound_0@ == kallsyms_error_text(
                                KallsymsError::UnexpectedEof { offset: io, needed: 2 },
                            )
                        });
                    assert(!tokens_ok(data@, to, io as int));
                }
                return Err(e);
            },
        };
        assert(tokens@ =~= indexed_tokens(
            data@,
            scan_result.token_table_offset as int,
            scan_result.token_index_offset as int,
        ));
        Ok(
            KallsymsFinder {
                data,
                config,
                tokens,
                addresses,
                names_offset: scan_result.names_offset,
                num_symbols: scan_result.num_symbols,
            },
        )
    }

    /// Get the detected configuration.
    pub fn config(&self) -> (r: &KallsymsConfig)
        ensures
            *r == self.config_view(),
    {
        &self.config
    }

    /// Get the number of symbols found.
    pub fn symbol_count(&self) -> (r: usize)
        ensures
            r == self.count_view(),
    {
        self.num_symbols
    }

    /// Get the kernel base address.
    pub fn kernel_base(&self) -> (r: u64)
        ensures
            r == self.config_view().kernel_base,
    {
        self.config.kernel_base
    }

    /// Get the detected architecture.
    pub fn arch(&self) -> (r: KernelArch)
        ensures
            r == self.config_view().arch,
    {
        self.config.arch
    }

    /// A lazy walk over the symbols, decoding names on demand.
    pub fn symbols(&'a self) -> (r: SymbolIterator<'a>)
        ensures
            r.data_view() == self.data_view(),
            r.addresses_view() == self.addresses_view(),
            r.tokens_view() == self.tokens_view(),
            r.index() == 0,
            r.names_ptr() == self.names_offset_view(),
            r.remaining() == self.walked_symbols(),
    {
        SymbolIterator::new(self.data, self.addresses.as_slice(), self.names_offset, &self.tokens)
    }

    /// Decode every symbol, in parallel; those that fail to decode are
    /// left out, and the rest keep their order.
    pub fn collect_all_parallel(&self) -> (r: Vec<KernelSymbol>)
        ensures
            symbol_views(r@) == self.decoded_symbols(self.count_view()),
    {
        decode_all_in_parallel(self, self.num_symbols)
    }

    /// Collect all symbols into a result.
    pub fn into_result(self) -> (r: KallsymsResult)
        ensures
            symbol_views(r.symbols@) == self.decoded_symbols(self.count_view()),
            r.symbol_count == r.symbols@.len(),
            r.kernel_base == self.config_view().kernel_base,
            r.arch == self.config_view().arch,
    {
        let symbols = self.collect_all_parallel();
        KallsymsResult {
            symbol_count: symbols.len(),
            symbols,
            kernel_base: self.config.kernel_base,
            arch: self.config.arch,
        }
    }

    /// Find the first symbol of the walk at address `addr`.
    pub fn find_by_address(&self, addr: u64) -> (r: Option<KernelSymbol>)
        ensures
            match r {
                Some(s) => first_at_address(self.walked_symbols(), addr) == Some(s@),
                None => first_at_address(self.walked_symbols(), addr) is None,
            },
    {
        let mut it = self.symbols();
        let ghost all = it.remaining();
        loop
            invariant
                first_at_address(all, addr) == first_at_address(it.remaining(), addr),
                all == self.walked_symbols(),
            decreases it.data_view().len() - it.names_ptr(),
        {
            let ghost before = it.remaining();
            proof {
                lemma_step_advances(
                    it.data_view(),
                    it.addresses_view(),
                    it.tokens_view(),
                    it.index(),
                    it.names_ptr(),
                );
            }
            match it.next() {
                Some(sym) => {
                    assert(before.drop_first() =~= it.remaining());
                    if sym.address == addr {
                        return Some(sym);
                    }
                },
                None => {
                    return None;
                },
            }
        }
    }

    /// Find the symbols of the walk whose name starts with `prefix`, in
    /// order.
    pub fn find_by_prefix(&self, prefix: &str) -> (r: Vec<KernelSymbol>)
        ensures
            symbol_views(r@) == with_prefix(self.walked_symbols(), prefix@),
    {
        let p = chars_of(prefix);
        let mut it = self.symbols();
        let ghost all = it.remaining();
        let mut out: Vec<KernelSymbol> = Vec::new();
        loop
            invariant
                p@ == prefix@,
                with_prefix(all, prefix@) == symbol_views(out@) + with_prefix(
                    it.remaining(),
                    prefix@,
                ),
                all == self.walked_symbols(),
            decreases it.data_view().len() - it.names_ptr(),
        {
            let ghost before = it.remaining();
            let ghost prev = symbol_views(out@);
            proof {
                lemma_step_advances(
                    it.data_view(),
                    it.addresses_view(),
                    it.tokens_view(),
                    it.index(),
                    it.names_ptr(),
                );
            }
            match it.next() {
                Some(sym) => {
                    assert(before.drop_first() =~= it.remaining());
                    let name = chars_of(sym.name.as_str());
                    if starts_with_chars(&name, &p) {
                        out.push(sym);
                        assert(symbol_views(out@) =~= prev.push(before[0]));
                        assert(prev + with_prefix(before, prefix@) =~= symbol_views(out@)
                            + with_prefix(it.remaining(), prefix@));
                    } else {
                        assert(prev + with_prefix(before, prefix@) =~= symbol_views(out@)
                            + with_prefix(it.remaining(), prefix@));
                    }
                },
                None => {
                    assert(with_prefix(before, prefix@) =~= Seq::<SymbolView>::empty());
                    assert(symbol_views(out@) + Seq::<SymbolView>::empty() =~= symbol_views(out@));
                    return out;
                },
            }
        }
    }

    /// Read the addresses table in the format of `config`.
    fn parse_addresses(data: &[u8], scan: &ScanResult, config: &KallsymsConfig) -> (r: Result<
        Vec<u64>,
        Error,
    >)
        ensures
            match (r, table_addresses(data@, *scan, *config)) {
                (Ok(v), Ok(a)) => v@ == a,
                (Err(e), Err(t)) => e is KallsymsNotFound && e->KallsymsNotFound_0@ == t,
                _ => false,
            },
    {
        match config.format {
            AddressFormat::Absolute32 => Bin32Parser::parse_addresses(
                data,
                scan.addresses_offset,
                scan.num_symbols,
            ),
            AddressFormat::Absolute64 => Bin64Parser::parse_addresses(
                data,
                scan.addresses_offset,
                scan.num_symbols,
            ),
            AddressFormat::Relative32 => RelativeParser::parse_addresses_with_base(
                data,
                scan.addresses_offset,
                scan.num_symbols,
                match config.relative_base {
                    Some(b) => b,
                    None => 0,
                },
            ),
        }
    }

    /// Decode symbol `index`: its address, name, type and size.
    fn decode_symbol_at(&self, index: usize) -> (r: Result<KernelSymbol, Error>)
        ensures
            match (r, self.symbol_spec(index as int)) {
                (Ok(s), Ok(v)) => s@ == v,
                (Err(e), Err(t)) => e is KallsymsNotFound && e->KallsymsNotFound_0@ == t,
                _ => false,
            },
    {
        proof {
            use_type_invariant(self);
        }
        if index >= self.num_symbols {
            return Err(
                KallsymsError::IndexOutOfBounds { index, max: self.num_symbols }.into_error(),
            );
        }
        let address = if index < self.addresses.len() {
            self.addresses[index]
        } else {
            0
        };
        let (name, sym_type) = match decode_symbol_name(
            self.data,
            self.names_offset,
            index,
            &self.tokens,
        ) {
            Ok(x) => x,
            Err(e) => {
                return Err(e);
            },
        };
        let size = if index + 1 < self.addresses.len() {
            Some(self.addresses[index + 1].saturating_sub(address))
        } else {
            None
        };
        Ok(KernelSymbol { address, name, sym_type, size })
    }
}

/// Decodes symbols `0..n` of `finder` with rayon, keeping those that
/// decode.
///
/// Calls `into_par_iter` on the range, `filter_map` with the finder's own
/// decoding and `collect` into a `Vec`. Claimed of rayon: the range yields
/// `0..n`, `filter_map` keeps exactly the items the closure maps to `Some`,
/// and collecting into a `Vec` keeps the items in order (the unindexed
/// path joins the per-thread vectors left to right).
#[verifier::external_body]
fn decode_all_in_parallel(finder: &KallsymsFinder, n: usize) -> (r: Vec<KernelSymbol>)
    ensures
        symbol_views(r@) == finder.decoded_symbols(n as int),
{
    (0..n).into_par_iter().filter_map(|i| finder.decode_symbol_at(i).ok()).collect()
}


/// Whether the name of `x` begins with `prefix`: its first `prefix.len()`
/// characters are the prefix.
pub open spec fn name_begins_with(x: SymbolView, prefix: Seq<char>) -> bool {
    prefix.len() <= x.1.len() && x.1.subrange(0, prefix.len() as int) == prefix
}

/// A prefix search keeps exactly the symbols whose name begins with the
/// prefix, in walk order: what `find_by_prefix` returns for the walked
/// symbols is their filter by that property.
pub proof fn law_prefix_search(s: Seq<SymbolView>, prefix: Seq<char>)
    ensures
        with_prefix(s, prefix) == s.filter(|x: SymbolView| name_begins_with(x, prefix)),
        forall|j: int|
            0 <= j < with_prefix(s, prefix).len() ==> name_begins_with(
                #[trigger] with_prefix(s, prefix)[j],
                prefix,
            ),
    decreases s.len(),
{
    let pred = |x: SymbolView| name_begins_with(x, prefix);
    if s.len() == 0 {
        assert(s.filter(pred) =~= s) by {
            reveal(Seq::filter);
        }
    } else {
        law_prefix_search(s.drop_first(), prefix);
        let head = seq![s[0]];
        assert(s =~= head + s.drop_first());
        Seq::filter_distributes_over_add(head, s.drop_first(), pred);
        assert(head.filter(pred) == (if pred(s[0]) {
            head
        } else {
            Seq::<SymbolView>::empty()
        })) by {
            reveal_with_fuel(Seq::filter, 2);
            assert(head.drop_last() =~= Seq::<SymbolView>::empty());
        }
        assert(starts_with_text(s[0].1, prefix) == pred(s[0]));
    }
    broadcast use Seq::lemma_filter_pred;
}

} // verus!
