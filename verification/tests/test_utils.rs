use kernel_core::boot_image::BOOT_MAGIC;
use kernel_core::test_utils::{
    bytes_mismatch, create_lz4_compressed, create_mock_arm64_kernel, create_mock_boot_image,
};

#[test]
fn test_mock_boot_image_has_magic() {
    let img = create_mock_boot_image(4096, 1024);
    assert!(img.starts_with(&BOOT_MAGIC));
}

#[test]
fn test_mock_arm64_kernel_has_magic() {
    let kernel = create_mock_arm64_kernel(1024);
    assert_eq!(&kernel[0x38..0x3C], b"ARM\x64");
}

#[test]
fn test_lz4_roundtrip() {
    let input = b"Hello, World! This is test data for compression.";
    let compressed = create_lz4_compressed(input);

    // Verify magic
    assert_eq!(&compressed[0..4], &[0x02, 0x21, 0x4C, 0x18]);

    // Verify size field
    let size = u32::from_le_bytes([compressed[4], compressed[5], compressed[6], compressed[7]]);
    assert_eq!(size as usize, input.len());
}

#[test]
fn mock_boot_image_size_is_whole_pages() {
    assert_eq!(create_mock_boot_image(4096, 1024).len(), (1 + 2 + 1) * 2048);
    assert_eq!(create_mock_boot_image(0, 0).len(), 2048);
    assert_eq!(create_mock_boot_image(1, 2049).len(), (1 + 1 + 2) * 2048);
}

#[test]
fn mock_arm64_kernel_has_minimum_size_and_pattern() {
    let small = create_mock_arm64_kernel(3);
    assert_eq!(small.len(), 0x50);
    let big = create_mock_arm64_kernel(0x200);
    assert_eq!(big.len(), 0x200);
    assert_eq!(big[0x40], 0);
    assert_eq!(big[0x41], 1);
    assert_eq!(big[0x140], 0);
    assert_eq!(big[0x3C], 0);
}

#[test]
fn equal_bytes_have_no_mismatch() {
    assert_eq!(bytes_mismatch(&[1, 2, 3], &[1, 2, 3]), None);
}

#[test]
fn mismatch_report_shows_both_sides() {
    assert_eq!(
        bytes_mismatch(&[1, 2], &[1, 3, 4]).unwrap(),
        "Byte slices not equal:\n  Expected (2 bytes): [1, 2]...\n  Actual (3 bytes): [1, 3, 4]..."
    );
}

#[test]
fn mismatch_report_shows_at_most_100_bytes() {
    let a = vec![7u8; 150];
    let b = vec![7u8; 149];
    let m = bytes_mismatch(&a, &b).unwrap();
    assert!(m.contains("Expected (150 bytes)"));
    assert_eq!(m.matches("7, ").count(), 2 * 99);
}

#[test]
fn mock_arm64_kernel_is_detected() {
    let kernel = create_mock_arm64_kernel(4096);
    assert_eq!(
        kernel_core::kallsyms::scanner::detect_architecture(&kernel),
        kernel_core::kallsyms::KernelArch::Arm64
    );
    assert_eq!(
        kernel_core::probe::KallsymsFinder::new(&kernel).arch(),
        kernel_core::probe::KernelArch::Arm64
    );
}
