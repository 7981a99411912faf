use kernel_core::kallsyms::{
    AddressFormat, KallsymsConfig, KallsymsError, KallsymsResult, KernelArch, KernelSymbol,
    SymbolType,
};

#[test]
fn test_kernel_arch_pointer_size() {
    assert_eq!(KernelArch::Arm64.pointer_size(), 8);
    assert_eq!(KernelArch::X86_64.pointer_size(), 8);
    assert_eq!(KernelArch::Arm32.pointer_size(), 4);
}

#[test]
fn mod_test_symbol_type_classification() {
    assert!(SymbolType::Text.is_code());
    assert!(SymbolType::Data.is_data());
    assert!(!SymbolType::Text.is_data());
}

#[test]
fn arch_widths() {
    assert!(KernelArch::RiscV64.is_64bit());
    assert!(!KernelArch::X86.is_64bit());
    assert!(!KernelArch::Unknown.is_64bit());
    assert_eq!(KernelArch::X86.pointer_size(), 4);
    assert_eq!(KernelArch::Unknown.pointer_size(), 8);
}

#[test]
fn address_format_entry_sizes() {
    assert_eq!(AddressFormat::Absolute32.entry_size(), 4);
    assert_eq!(AddressFormat::Absolute64.entry_size(), 8);
    assert_eq!(AddressFormat::Relative32.entry_size(), 4);
}

#[test]
fn default_config() {
    let c = KallsymsConfig::default();
    assert_eq!(c.arch, KernelArch::Unknown);
    assert_eq!(c.format, AddressFormat::Absolute64);
    assert_eq!(c.kernel_base, 0);
    assert_eq!(c.relative_base, None);
    assert!(!c.big_endian);
}

#[test]
fn symbol_type_characters_round_trip() {
    for c in ['T', 't', 'D', 'd', 'B', 'b', 'R', 'r', 'W', 'w', 'A', 'x'] {
        assert_eq!(SymbolType::from_char(c).to_char(), c);
    }
    assert_eq!(SymbolType::from_char('V'), SymbolType::Weak);
    assert_eq!(SymbolType::from_char('v').to_char(), 'w');
    assert_eq!(SymbolType::from_char('?'), SymbolType::Unknown('?'));
}

#[test]
fn symbol_type_classes() {
    assert!(SymbolType::WeakLocal.is_code());
    assert!(SymbolType::RodataLocal.is_data());
    assert!(!SymbolType::Absolute.is_code());
    assert!(!SymbolType::Absolute.is_data());
    assert!(SymbolType::Absolute.is_global());
    assert!(!SymbolType::TextLocal.is_global());
    assert_eq!(SymbolType::Bss.to_display_string(), "B");
}

fn sym(address: u64, name: &str, sym_type: SymbolType) -> KernelSymbol {
    KernelSymbol { address, name: name.to_string(), sym_type, size: None }
}

#[test]
fn symbol_display_and_kinds() {
    let s = sym(0xffff_0000_0000_1234, "start_kernel", SymbolType::Text);
    assert_eq!(s.to_display_string(), "ffff000000001234 T start_kernel");
    assert!(s.is_function());
    assert!(!s.is_variable());
    let v = sym(0x10, "jiffies", SymbolType::DataLocal);
    assert_eq!(v.to_display_string(), "0000000000000010 d jiffies");
    assert!(v.is_variable());
}

#[test]
fn result_lookup_by_name_and_search() {
    let result = KallsymsResult {
        symbols: vec![
            sym(1, "do_fork", SymbolType::Text),
            sym(2, "sys_fork", SymbolType::Text),
            sym(3, "do_exit", SymbolType::Text),
            sym(4, "do_fork", SymbolType::TextLocal),
        ],
        kernel_base: 0,
        arch: KernelArch::Arm64,
        symbol_count: 4,
    };
    assert_eq!(result.find_by_name("do_fork").unwrap().address, 1);
    assert!(result.find_by_name("fork").is_none());
    let hits: Vec<u64> = result.search("fork").iter().map(|s| s.address).collect();
    assert_eq!(hits, vec![1, 2, 4]);
    assert!(result.search("nothing").is_empty());
}

#[test]
fn kallsyms_error_messages() {
    assert_eq!(
        KallsymsError::AddressesNotFound.message(),
        "Could not locate kallsyms_addresses table"
    );
    assert_eq!(
        KallsymsError::IndexOutOfBounds { index: 5, max: 3 }.message(),
        "Index 5 out of bounds (max: 3)"
    );
    assert_eq!(
        KallsymsError::TokenRecursionLimit { token_id: 7, max_depth: 128 }.message(),
        "Token expansion exceeded max depth (128) at token 7"
    );
    assert_eq!(
        KallsymsError::AddressesNotFound.into_error().message(),
        "Kallsyms not found: Could not locate kallsyms_addresses table"
    );
}
