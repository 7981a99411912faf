use kernel_core::elf_builder::build_elf;
use kernel_core::kallsyms::decoder::{SymbolIterator, TokenTable};
use kernel_core::kallsyms::scanner::{detect_architecture, infer_config, scan_for_kallsyms};
use kernel_core::kallsyms::{AddressFormat, KallsymsFinder, KernelArch, SymbolType};
use kernel_core::session::{analyze_kernel_bytes, AnalysisSession};
use kernel_core::symbol_order::SortColumn;
use kernel_core::test_utils::create_lz4_compressed;

const NUM_SYMBOLS: usize = 800;
const FIRST_ADDRESS: u64 = 0xFFFF_FF80_0800_0000;
const ADDRESSES_AT: usize = 0x1000;

/// Where the tables of an image lie.
struct Layout {
    num_syms_at: usize,
    names_at: usize,
    markers_at: usize,
    tokens_at: usize,
    index_at: usize,
}

/// The layout: the addresses (8 bytes each) or the offsets (4 bytes each)
/// followed by the relative base, then the count, the names (symbol 0 has
/// a longer name, so that the markers' low bytes are not zero), 4 bytes of
/// padding, the markers, the token table and its index.
fn layout(relative: bool) -> Layout {
    let num_syms_at = if relative {
        ADDRESSES_AT + NUM_SYMBOLS * 4 + 8
    } else {
        ADDRESSES_AT + NUM_SYMBOLS * 8
    };
    let names_at = num_syms_at + 8;
    let markers_at = names_at + NUM_SYMBOLS * 6 + 4 + 4;
    let tokens_at = markers_at + 4 * 8;
    Layout { num_syms_at, names_at, markers_at, tokens_at, index_at: tokens_at + 512 }
}

const NUM_SYMS_AT: usize = ADDRESSES_AT + NUM_SYMBOLS * 8;
const NAMES_AT: usize = NUM_SYMS_AT + 8;
const MARKERS_AT: usize = NAMES_AT + NUM_SYMBOLS * 6 + 4 + 4;
const TOKENS_AT: usize = MARKERS_AT + 4 * 8;
const INDEX_AT: usize = TOKENS_AT + 512;

/// The token for byte `i`: printable ASCII stands for itself (but `:` for
/// `Z`), anything else for `?`.
fn token_char(i: usize) -> u8 {
    if i == 58 {
        b'Z'
    } else if (32..127).contains(&i) {
        i as u8
    } else {
        b'?'
    }
}

/// The name of symbol `i`.
fn name_of(i: usize) -> String {
    if i == 0 {
        "s000_pad".to_string()
    } else {
        format!("s{:03}", i)
    }
}

/// Where the name record of symbol `i` starts in the names table.
fn record_at(i: usize) -> usize {
    if i == 0 {
        0
    } else {
        6 * i + 4
    }
}

/// An AArch64 image with a kallsyms table of 800 symbols named
/// `s000_pad`, `s001` to `s799`, all `T`, at addresses 0x40 apart: absolute
/// addresses or offsets from a relative base, the count, the names, four
/// markers, the token table and its index.
fn build_image(relative: bool) -> Vec<u8> {
    let l = layout(relative);
    let mut d = vec![0u8; l.index_at + 512 + 64];
    d[0x38..0x3C].copy_from_slice(b"ARM\x64");
    if relative {
        // Filler before the offsets: 32-bit words alternating 0 and
        // 0x10000000, so that tables taken to start there are not sorted.
        for w in 0..(ADDRESSES_AT - 0x40) / 4 {
            let v: u32 = if w % 2 == 0 { 0 } else { 0x1000_0000 };
            d[0x40 + 4 * w..0x40 + 4 * w + 4].copy_from_slice(&v.to_le_bytes());
        }
        for i in 0..NUM_SYMBOLS {
            let off = (0x40 * i) as i32;
            d[ADDRESSES_AT + 4 * i..ADDRESSES_AT + 4 * i + 4].copy_from_slice(&off.to_le_bytes());
        }
        let base_at = ADDRESSES_AT + NUM_SYMBOLS * 4;
        d[base_at..base_at + 8].copy_from_slice(&FIRST_ADDRESS.to_le_bytes());
    } else {
        for i in 0..NUM_SYMBOLS {
            let a = FIRST_ADDRESS + 0x40 * i as u64;
            d[ADDRESSES_AT + 8 * i..ADDRESSES_AT + 8 * i + 8].copy_from_slice(&a.to_le_bytes());
        }
    }
    d[l.num_syms_at..l.num_syms_at + 8].copy_from_slice(&(NUM_SYMBOLS as u64).to_le_bytes());
    for i in 0..NUM_SYMBOLS {
        let name = name_of(i);
        let at = l.names_at + record_at(i);
        d[at] = (name.len() + 1) as u8;
        d[at + 1] = b'T';
        d[at + 2..at + 2 + name.len()].copy_from_slice(name.as_bytes());
    }
    for k in 0..4 {
        let m = record_at(k * 256) as u64;
        d[l.markers_at + 8 * k..l.markers_at + 8 * k + 8].copy_from_slice(&m.to_le_bytes());
    }
    for i in 0..256 {
        d[l.tokens_at + 2 * i] = token_char(i);
        d[l.tokens_at + 2 * i + 1] = 0;
        d[l.index_at + 2 * i..l.index_at + 2 * i + 2]
            .copy_from_slice(&((2 * i) as u16).to_le_bytes());
    }
    d
}

fn kallsyms_image() -> Vec<u8> {
    build_image(false)
}

#[test]
fn image_is_arm64() {
    assert_eq!(detect_architecture(&kallsyms_image()), KernelArch::Arm64);
}

#[test]
fn scan_finds_every_table() {
    let d = kallsyms_image();
    let scan = scan_for_kallsyms(&d, KernelArch::Arm64).unwrap();
    assert_eq!(scan.token_table_offset, TOKENS_AT);
    assert_eq!(scan.token_index_offset, INDEX_AT);
    assert!(!scan.big_endian);
    assert_eq!(scan.markers_offset, MARKERS_AT);
    assert_eq!(scan.num_symbols, NUM_SYMBOLS);
    assert_eq!(scan.names_offset, NAMES_AT);
    assert_eq!(scan.addresses_offset, ADDRESSES_AT);
    assert_eq!(scan.relative_base_address, None);
    assert_eq!(scan.arch, KernelArch::Arm64);
    let config = infer_config(&scan).unwrap();
    assert_eq!(config.format, AddressFormat::Absolute64);
    assert_eq!(config.kernel_base, 0);
}

#[test]
fn scan_of_empty_data_finds_no_token_table() {
    match scan_for_kallsyms(&[0u8; 1024], KernelArch::Unknown) {
        Err(e) => assert_eq!(e.message(), "Kallsyms not found: Could not locate kallsyms_token_table"),
        Ok(_) => panic!("expected an error"),
    }
}

#[test]
fn finder_recovers_all_symbols() {
    let d = kallsyms_image();
    let finder = KallsymsFinder::new(&d).unwrap();
    assert_eq!(finder.symbol_count(), NUM_SYMBOLS);
    assert_eq!(finder.arch(), KernelArch::Arm64);
    assert_eq!(finder.kernel_base(), 0);
    assert_eq!(finder.config().format, AddressFormat::Absolute64);

    let all = finder.collect_all_parallel();
    assert_eq!(all.len(), NUM_SYMBOLS);
    for (i, s) in all.iter().enumerate() {
        assert_eq!(s.name, name_of(i));
        assert_eq!(s.address, FIRST_ADDRESS + 0x40 * i as u64);
        assert_eq!(s.sym_type, SymbolType::Text);
    }
    assert_eq!(all[0].size, Some(0x40));
    assert_eq!(all[NUM_SYMBOLS - 1].size, None);

    let mut walk = finder.symbols();
    let walked = walk.collect_remaining();
    assert_eq!(walked.len(), NUM_SYMBOLS);
    assert_eq!(walked[123].name, "s123");
}

#[test]
fn finder_lookups() {
    let d = kallsyms_image();
    let finder = KallsymsFinder::new(&d).unwrap();
    let s = finder.find_by_address(FIRST_ADDRESS + 0x40 * 42).unwrap();
    assert_eq!(s.name, "s042");
    assert!(finder.find_by_address(1).is_none());
    let hits = finder.find_by_prefix("s79");
    let names: Vec<&str> = hits.iter().map(|s| s.name.as_str()).collect();
    assert_eq!(names, vec!["s790", "s791", "s792", "s793", "s794", "s795", "s796", "s797", "s798", "s799"]);
    let result = finder.into_result();
    assert_eq!(result.symbol_count, NUM_SYMBOLS);
    assert_eq!(result.arch, KernelArch::Arm64);
}

#[test]
fn walk_over_the_found_tables() {
    let d = kallsyms_image();
    let table = TokenTable::parse(&d, TOKENS_AT, INDEX_AT).unwrap();
    let addresses = vec![1u64, 2, 3];
    let mut it = SymbolIterator::new(&d, &addresses, NAMES_AT, &table);
    let first = it.next().unwrap();
    assert_eq!(first.name, "s000_pad");
    assert_eq!(first.size, Some(1));
    assert_eq!(it.collect_remaining().len(), 2);
}

#[test]
fn elf_is_built_from_recovered_symbols() {
    let d = kallsyms_image();
    let result = KallsymsFinder::new(&d).unwrap().into_result();
    let elf = build_elf(&d, &result).unwrap();
    assert_eq!(&elf[0..4], b"\x7fELF");
    assert!(String::from_utf8_lossy(&elf).contains("s799"));
}

#[test]
fn pipeline_over_raw_kernel() {
    let d = kallsyms_image();
    let res = analyze_kernel_bytes(d.clone()).unwrap();
    assert_eq!(res.kernel_size, d.len());
    assert_eq!(res.symbol_count, NUM_SYMBOLS);
    assert_eq!(res.symbols.len(), NUM_SYMBOLS);
    assert_eq!(res.arch, KernelArch::Arm64);
    assert_eq!(&res.elf_bytes[0..4], b"\x7fELF");
}

/// A boot image whose kernel is the kallsyms image, LZ4-compressed.
fn boot_image_with_kernel(kernel: &[u8]) -> Vec<u8> {
    let page = 2048usize;
    let mut img = vec![0u8; page];
    img[0..8].copy_from_slice(b"ANDROID!");
    img[8..12].copy_from_slice(&(kernel.len() as u32).to_le_bytes());
    img[36..40].copy_from_slice(&(page as u32).to_le_bytes());
    img.extend_from_slice(kernel);
    img
}

#[test]
fn pipeline_over_boot_image_with_compressed_kernel() {
    let d = kallsyms_image();
    let packed = create_lz4_compressed(&d);
    let res = analyze_kernel_bytes(boot_image_with_kernel(&packed)).unwrap();
    assert_eq!(res.kernel_size, d.len());
    assert_eq!(res.symbols[799].name, "s799");
}

#[test]
fn session_queries() {
    let session = AnalysisSession::from_bytes(kallsyms_image()).unwrap();
    assert_eq!(session.summary.arch, "Arm64");
    assert_eq!(session.summary.symbol_count, NUM_SYMBOLS);
    assert_eq!(session.summary.kernel_base, 0);

    assert_eq!(session.count_filtered(String::new()), NUM_SYMBOLS);
    assert_eq!(session.count_filtered("S7".to_string()), 100);
    assert_eq!(session.count_filtered("nope".to_string()), 0);

    let page = session.query_symbols("S79".to_string(), SortColumn::Name, false, 0, 3);
    let names: Vec<&str> = page.iter().map(|s| s.name.as_str()).collect();
    assert_eq!(names, vec!["s799", "s798", "s797"]);
    assert_eq!(page[0].stype, "T");
    assert_eq!(page[0].addr, FIRST_ADDRESS + 0x40 * 799);

    let page = session.query_symbols(String::new(), SortColumn::Address, true, 2, 10);
    assert_eq!(page.len(), 10);
    assert_eq!(page[0].name, "s020");

    // Equal types keep their order.
    let page = session.query_symbols(String::new(), SortColumn::Type, false, 0, 2);
    assert_eq!(page[0].name, "s000_pad");
    assert_eq!(page[1].name, "s001");

    assert!(session.query_symbols(String::new(), SortColumn::Name, true, 100, 10).is_empty());

    // Pages of 7 walk the whole filtered, sorted list.
    let mut walked = Vec::new();
    for p in 0..15 {
        for s in session.query_symbols("s7".to_string(), SortColumn::Name, true, p, 7) {
            walked.push(s.name);
        }
    }
    let expected: Vec<String> = (700..800).map(|i| format!("s{}", i)).collect();
    assert_eq!(walked, expected);
    // 100 rows in pages of 7: fourteen full pages, then 2 rows, then none.
    for p in 0..14 {
        assert_eq!(session.query_symbols("s7".to_string(), SortColumn::Name, true, p, 7).len(), 7);
    }
    assert_eq!(session.query_symbols("s7".to_string(), SortColumn::Name, true, 14, 7).len(), 2);
    assert!(session.query_symbols("s7".to_string(), SortColumn::Name, true, 15, 7).is_empty());

    let chunk = session.get_hex_chunk(0, 4);
    assert_eq!(chunk.content, b"\x7fELF".to_vec());
    assert_eq!(chunk.offset, 0);
    let total = chunk.total_size;
    let tail = session.get_hex_chunk(total as usize - 2, 100);
    assert_eq!(tail.content.len(), 2);
    let past = session.get_hex_chunk(total as usize + 5, 10);
    assert!(past.content.is_empty());
    assert_eq!(past.offset, total);
}

#[test]
fn relative_table_is_found_and_scored() {
    let d = build_image(true);
    let l = layout(true);
    let scan = scan_for_kallsyms(&d, KernelArch::Arm64).unwrap();
    assert_eq!(scan.num_symbols, NUM_SYMBOLS);
    assert_eq!(scan.names_offset, l.names_at);
    assert_eq!(scan.markers_offset, l.markers_at);
    assert_eq!(scan.addresses_offset, ADDRESSES_AT);
    assert_eq!(scan.relative_base_address, Some(FIRST_ADDRESS));
    let config = infer_config(&scan).unwrap();
    assert_eq!(config.format, AddressFormat::Relative32);
    assert_eq!(config.kernel_base, FIRST_ADDRESS);

    let result = KallsymsFinder::new(&d).unwrap().into_result();
    assert_eq!(result.kernel_base, FIRST_ADDRESS);
    assert_eq!(result.symbols.len(), NUM_SYMBOLS);
    assert_eq!(result.symbols[5].address, FIRST_ADDRESS + 0x140);
    assert_eq!(result.symbols[5].name, "s005");
}
