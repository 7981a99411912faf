use kernel_core::error::Error;
use kernel_core::probe::{KallsymsFinder, KernelArch, KernelSymbol};

#[test]
fn test_arch_detection_arm64() {
    let mut data = vec![0u8; 0x50];
    data[0x38..0x3C].copy_from_slice(b"ARM\x64");

    let finder = KallsymsFinder::new(&data);
    assert_eq!(finder.arch(), KernelArch::Arm64);
}

#[test]
fn kallsyms_test_symbol_type_classification() {
    let sym = KernelSymbol {
        address: 0xFFFF0000,
        name: "test_func".into(),
        sym_type: 'T',
        size: Some(100),
    };

    assert!(sym.is_code());
    assert!(!sym.is_data());
}

#[test]
fn probe_detects_other_magics() {
    let mut x86 = vec![0u8; 0x210];
    x86[0x1FE] = 0x55;
    x86[0x1FF] = 0xAA;
    assert_eq!(KallsymsFinder::new(&x86).arch(), KernelArch::X86_64);

    let mut arm = vec![0u8; 0x30];
    arm[0x24..0x28].copy_from_slice(&[0x18, 0x28, 0x6F, 0x01]);
    assert_eq!(KallsymsFinder::new(&arm).arch(), KernelArch::Arm32);

    assert_eq!(KallsymsFinder::new(&[0u8; 0x26]).arch(), KernelArch::Unknown);
    assert_eq!(KernelArch::Arm32.pointer_size(), 4);
    assert_eq!(KernelArch::Unknown.pointer_size(), 8);
}

#[test]
fn probe_without_markers_finds_no_token_table() {
    let data = vec![0u8; 4096];
    match KallsymsFinder::new(&data).find_symbols() {
        Err(Error::KallsymsNotFound(m)) => assert_eq!(m, "Could not locate token table"),
        _ => panic!("expected an error"),
    }
}

#[test]
fn probe_with_marker_stops_at_token_index() {
    let mut data = vec![1u8; 4096];
    data[3000..3010].copy_from_slice(b"__ksymtab_");
    match KallsymsFinder::new(&data).find_symbols() {
        Err(Error::KallsymsNotFound(m)) => {
            assert_eq!(m, "Token index search not yet implemented")
        },
        _ => panic!("expected an error"),
    }
}

#[test]
fn data_symbol_kinds() {
    for c in ['D', 'd', 'B', 'b', 'R', 'r'] {
        let s = KernelSymbol { address: 0, name: String::new(), sym_type: c, size: None };
        assert!(s.is_data());
        assert!(!s.is_code());
    }
    let w = KernelSymbol { address: 0, name: String::new(), sym_type: 'w', size: None };
    assert!(w.is_code());
}
