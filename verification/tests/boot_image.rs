use kernel_core::boot_image::{BootImage, BootImageVersion, BOOT_MAGIC};
use kernel_core::error::Error;
use kernel_core::test_utils::create_mock_boot_image;

#[test]
fn test_magic_detection() {
    // Valid ANDROID! magic
    let mut data = vec![0u8; 4096];
    data[..8].copy_from_slice(&BOOT_MAGIC);

    assert!(data.starts_with(&BOOT_MAGIC));
}

#[test]
fn test_invalid_magic() {
    let data = vec![0u8; 100];
    let result = BootImage::from_bytes(data);

    assert!(matches!(result, Err(Error::MagicMismatch { .. })));
}

#[test]
fn magic_mismatch_shows_first_bytes() {
    let data = vec![1u8, 2, 3, 4, 5, 6, 7, 8, 9, 10];
    match BootImage::from_bytes(data) {
        Err(Error::MagicMismatch { expected, found }) => {
            assert_eq!(expected, "ANDROID! or VNDRBOOT");
            assert_eq!(found, "[1, 2, 3, 4, 5, 6, 7, 8]");
        },
        _ => panic!("expected a magic mismatch"),
    }
}

#[test]
fn too_small_image_is_rejected() {
    let result = BootImage::from_bytes(vec![0x41, 0x4E, 0x44]);
    match result {
        Err(e) => assert_eq!(e.message(), "Invalid boot image format: File too small"),
        Ok(_) => panic!("expected an error"),
    }
}

#[test]
fn vendor_boot_image_is_not_parsed() {
    let mut data = b"VNDRBOOT".to_vec();
    data.extend_from_slice(&[0u8; 600]);
    match BootImage::from_bytes(data) {
        Err(Error::InvalidBootImage(m)) => {
            assert_eq!(m, "Vendor boot image parsing not yet implemented")
        },
        _ => panic!("expected an error"),
    }
}

#[test]
fn truncated_header_reports_unparsed_bytes() {
    // Magic, the kernel size and two bytes of the kernel address.
    let mut data = BOOT_MAGIC.to_vec();
    data.extend_from_slice(&[1, 0, 0, 0, 9, 9]);
    match BootImage::from_bytes(data) {
        Err(Error::ParseError(m)) => {
            assert_eq!(m, "Error(Error { input: [9, 9], code: Eof })")
        },
        _ => panic!("expected a parse error"),
    }
}

#[test]
fn zero_page_size_is_rejected() {
    let mut data = vec![0u8; 600];
    data[..8].copy_from_slice(&BOOT_MAGIC);
    match BootImage::from_bytes(data) {
        Err(Error::InvalidBootImage(m)) => assert_eq!(m, "Page size is zero"),
        _ => panic!("expected an error"),
    }
}

#[test]
fn mock_image_parses_and_extracts() {
    let img = BootImage::from_bytes(create_mock_boot_image(4096, 1024)).unwrap();
    let h = img.header();
    assert_eq!(h.version, BootImageVersion::V1);
    assert_eq!(h.kernel_size, 4096);
    assert_eq!(h.kernel_addr, 0x10008000);
    assert_eq!(h.ramdisk_size, 1024);
    assert_eq!(h.ramdisk_addr, 0x11000000);
    assert_eq!(h.page_size, 2048);
    assert_eq!(h.kernel_offset, 2048);
    assert_eq!(h.ramdisk_offset, 2048 + 2 * 2048);
    assert_eq!(h.cmdline, "");

    let kernel = img.extract_kernel().unwrap();
    assert_eq!(kernel.len(), 4096);
    assert_eq!(kernel[0], 0);
    assert_eq!(kernel[300], 44);
    let ramdisk = img.extract_ramdisk().unwrap();
    assert_eq!(ramdisk.len(), 1024);
    assert_eq!(ramdisk[0], 255);
    assert_eq!(ramdisk[1], 254);
}

#[test]
fn cmdline_is_read_up_to_its_first_zero() {
    let mut data = create_mock_boot_image(16, 16);
    data[48..60].copy_from_slice(b"console=tty\0");
    data[60] = b'x';
    let img = BootImage::from_bytes(data).unwrap();
    assert_eq!(img.header().cmdline, "console=tty");
}

#[test]
fn kernel_past_end_of_file_is_reported() {
    let mut data = create_mock_boot_image(100, 0);
    // Claim a kernel far larger than the image.
    data[8..12].copy_from_slice(&100_000u32.to_le_bytes());
    let len = data.len();
    let img = BootImage::from_bytes(data).unwrap();
    match img.extract_kernel() {
        Err(e) => assert_eq!(
            e.message(),
            format!(
                "Invalid boot image format: Kernel extends beyond file: offset=2048, size=100000, file_len={}",
                len
            )
        ),
        Ok(_) => panic!("expected an error"),
    }
}

#[test]
fn version_numbers_map_to_versions() {
    assert_eq!(BootImageVersion::from(0u32), BootImageVersion::V0);
    assert_eq!(BootImageVersion::from(2u32), BootImageVersion::V2);
    assert_eq!(BootImageVersion::from(4u32), BootImageVersion::V4);
    assert_eq!(BootImageVersion::from(7u32), BootImageVersion::Unknown(7));
}
