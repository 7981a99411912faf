use kernel_core::elf_builder::{build_elf, Architecture, ElfBuilder, Endianness};
use kernel_core::error::Error;
use kernel_core::kallsyms::{KallsymsResult, KernelArch, KernelSymbol, SymbolType};

#[test]
fn test_elf_params_arm64() {
    let symbols = KallsymsResult {
        symbols: vec![],
        kernel_base: 0xFFFF_8000_0000_0000,
        arch: KernelArch::Arm64,
        symbol_count: 0,
    };

    let builder = ElfBuilder::new(&[], &symbols);
    let (arch, endian) = builder.get_elf_params().unwrap();

    assert_eq!(arch, Architecture::Aarch64);
    assert_eq!(endian, Endianness::Little);
}

fn result(arch: KernelArch, symbols: Vec<KernelSymbol>) -> KallsymsResult {
    KallsymsResult { symbol_count: symbols.len(), symbols, kernel_base: 0x1000, arch }
}

#[test]
fn elf_params_per_arch() {
    let r = result(KernelArch::RiscV64, vec![]);
    assert_eq!(
        ElfBuilder::new(&[], &r).get_elf_params().unwrap(),
        (Architecture::Riscv64, Endianness::Little)
    );
    let r = result(KernelArch::X86, vec![]);
    assert_eq!(
        ElfBuilder::new(&[], &r).get_elf_params().unwrap(),
        (Architecture::I386, Endianness::Little)
    );
}

#[test]
fn unknown_arch_cannot_be_written() {
    let r = result(KernelArch::Unknown, vec![]);
    match build_elf(&[0u8; 16], &r) {
        Err(Error::UnsupportedArch(m)) => assert_eq!(m, "Cannot determine ELF architecture"),
        _ => panic!("expected an error"),
    }
}

#[test]
fn elf_file_is_written() {
    let symbols = vec![
        KernelSymbol {
            address: 0x1010,
            name: "start_kernel".to_string(),
            sym_type: SymbolType::Text,
            size: Some(16),
        },
        KernelSymbol {
            address: 0x1020,
            name: "bad\u{1}name".to_string(),
            sym_type: SymbolType::Data,
            size: None,
        },
    ];
    let r = result(KernelArch::Arm64, symbols);
    let bytes = build_elf(&[0xAAu8; 64], &r).unwrap();
    assert_eq!(&bytes[0..4], b"\x7fELF");
    // 64-bit little-endian AArch64.
    assert_eq!(bytes[4], 2);
    assert_eq!(bytes[5], 1);
    assert_eq!(u16::from_le_bytes([bytes[18], bytes[19]]), 183);
    let text = String::from_utf8_lossy(&bytes);
    assert!(text.contains("start_kernel"));
    assert!(!text.contains("bad\u{1}name"));
}

#[test]
fn repetitive_names_are_garbage() {
    assert!(ElfBuilder::is_repetitive_garbage("tltltltl"));
    assert!(ElfBuilder::is_repetitive_garbage("caltcaltcalt"));
    assert!(!ElfBuilder::is_repetitive_garbage("tltltl"));
    assert!(!ElfBuilder::is_repetitive_garbage("start_kernel"));
    // "ab" occurs 2 times (2 > (10 / 2) * 2 / 5 == 2 is false) and "abx"
    // once (1 > (10 / 3) * 2 / 5 == 1 is false).
    assert!(!ElfBuilder::is_repetitive_garbage("abxyzwabqr"));
    // "ab" occurs 3 times; 3 > 2.
    assert!(ElfBuilder::is_repetitive_garbage("abxyabzzab"));
}
