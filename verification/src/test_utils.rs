//! Test data builders: mock boot images, mock ARM64 kernels and LZ4
//! legacy streams, and the report of two byte strings that differ.

use crate::boot_image::{boot_magic, header_field, header_readable, ramdisk_start, starts_with_bytes};
use crate::byte_io::{le16, le32, u32_at};
use crate::compression::{
    decompressed, detected_format, lz4_block_compress, lz4_block_compressed, lz4_block_decoded,
    lz4_legacy_size, CompressionFormat,
};
use crate::error::Error;
use crate::kallsyms::scanner::detected_arch;
use crate::kallsyms::types::KernelArch;
use crate::probe::magic_arch;
use crate::text::{byte_list_text, dec_text, push_byte_list, push_dec, push_str, text};
use vstd::prelude::*;

verus! {

/// The little-endian bytes of `v`.
pub open spec fn le_bytes(v: u32) -> Seq<u8> {
    seq![(v & 0xff) as u8, ((v >> 8u32) & 0xff) as u8, ((v >> 16u32) & 0xff) as u8, (v >> 24u32) as u8]
}

/// Reading back the little-endian bytes of `v` gives `v`.
pub proof fn lemma_le_bytes(v: u32)
    ensures
        le32(le_bytes(v), 0) == v,
{
    let b0 = v & 0xff;
    let b1 = (v >> 8u32) & 0xff;
    let b2 = (v >> 16u32) & 0xff;
    let b3 = v >> 24u32;
    assert(b0 + b1 * 0x100 + (b2 + b3 * 0x100) * 0x1_0000 == v) by (bit_vector)
        requires
            b0 == v & 0xff,
            b1 == (v >> 8u32) & 0xff,
            b2 == (v >> 16u32) & 0xff,
            b3 == v >> 24u32,
    ;
    assert(b0 < 256 && b1 < 256 && b2 < 256 && b3 < 256) by (bit_vector)
        requires
            b0 == v & 0xff,
            b1 == (v >> 8u32) & 0xff,
            b2 == (v >> 16u32) & 0xff,
            b3 == v >> 24u32,
    ;
    assert(le_bytes(v)[0] == b0 && le_bytes(v)[1] == b1 && le_bytes(v)[2] == b2 && le_bytes(v)[3]
        == b3);
}

/// The `u32` at `off` of `d` is `v` when the four bytes there are those of `v`.
proof fn lemma_u32_at(d: Seq<u8>, off: int, v: u32)
    requires
        0 <= off,
        off + 4 <= d.len(),
        d.subrange(off, off + 4) == le_bytes(v),
    ensures
        u32_at(d, off, false) == v,
{
    lemma_le_bytes(v);
    let b = le_bytes(v);
    assert(d[off] == b[0] && d[off + 1] == b[1] && d[off + 2] == b[2] && d[off + 3] == b[3]) by {
        assert(d.subrange(off, off + 4)[0] == d[off]);
        assert(d.subrange(off, off + 4)[1] == d[off + 1]);
        assert(d.subrange(off, off + 4)[2] == d[off + 2]);
        assert(d.subrange(off, off + 4)[3] == d[off + 3]);
    }
    assert(le32(d, off) == le32(b, 0));
}

/// Whether a mock boot image of these sizes can be built: the page
/// rounding does not overflow `u32` and the image size fits in `usize`.
pub open spec fn mock_sizes_ok(kernel_size: u32, ramdisk_size: u32) -> bool {
    &&& kernel_size + 2048 <= u32::MAX
    &&& ramdisk_size + 2048 <= u32::MAX
    &&& mock_image_len(kernel_size, ramdisk_size) <= usize::MAX
}

/// Pages of 2048 bytes a region of `size` bytes takes.
pub open spec fn mock_pages(size: u32) -> int {
    (size + 2047) / 2048
}

/// The size of a mock boot image: a header page, the kernel pages and the
/// ramdisk pages.
pub open spec fn mock_image_len(kernel_size: u32, ramdisk_size: u32) -> int {
    (1 + mock_pages(kernel_size) + mock_pages(ramdisk_size)) * 2048
}

/// Where the ramdisk of a mock boot image starts: the page after the
/// kernel's pages.
pub open spec fn mock_ramdisk_start(kernel_size: u32) -> int {
    2048 + mock_pages(kernel_size) * 2048
}

/// The 48 header bytes of a mock boot image: the magic, the kernel size
/// and address 0x10008000, the ramdisk size and address 0x11000000, no
/// second stage, tags at 0x10000100, page size 2048, header version 1 and
/// OS version 0.
pub open spec fn mock_header(kernel_size: u32, ramdisk_size: u32) -> Seq<u8> {
    boot_magic() + le_bytes(kernel_size) + le_bytes(0x10008000) + le_bytes(ramdisk_size)
        + le_bytes(0x11000000) + le_bytes(0) + le_bytes(0) + le_bytes(0x10000100) + le_bytes(2048)
        + le_bytes(1) + le_bytes(0)
}

/// Byte `i` of a mock boot image: the header, the kernel (byte `j` of it
/// is `j % 256`) at page 1, the ramdisk (byte `j` is `255 - j % 256`) on
/// the page after the kernel; zero elsewhere.
pub open spec fn mock_byte(kernel_size: u32, ramdisk_size: u32, i: int) -> u8 {
    let rstart = mock_ramdisk_start(kernel_size);
    if i < 48 {
        mock_header(kernel_size, ramdisk_size)[i]
    } else if 2048 <= i < 2048 + kernel_size {
        ((i - 2048) % 256) as u8
    } else if rstart <= i < rstart + ramdisk_size {
        (255 - (i - rstart) % 256) as u8
    } else {
        0
    }
}

/// A mock boot image.
pub open spec fn mock_boot_image(kernel_size: u32, ramdisk_size: u32) -> Seq<u8> {
    Seq::new(
        mock_image_len(kernel_size, ramdisk_size) as nat,
        |i: int| mock_byte(kernel_size, ramdisk_size, i),
    )
}

/// The kernel of a mock boot image: byte `j` is `j % 256`.
pub open spec fn mock_kernel_bytes(size: u32) -> Seq<u8> {
    Seq::new(size as nat, |j: int| (j % 256) as u8)
}

/// The ramdisk of a mock boot image: byte `j` is `255 - j % 256`.
pub open spec fn mock_ramdisk_bytes(size: u32) -> Seq<u8> {
    Seq::new(size as nat, |j: int| (255 - j % 256) as u8)
}

/// Appends the little-endian bytes of `v`.
fn push_le32(data: &mut Vec<u8>, v: u32)
    ensures
        final(data)@ == old(data)@ + le_bytes(v),
{
    data.push((v & 0xff) as u8);
    data.push(((v >> 8u32) & 0xff) as u8);
    data.push(((v >> 16u32) & 0xff) as u8);
    data.push((v >> 24u32) as u8);
    assert(final(data)@ =~= old(data)@ + le_bytes(v));
}

/// Generate a minimal valid boot image: a header with 2048-byte pages,
/// a kernel of `kernel_size` bytes and a ramdisk of `ramdisk_size` bytes,
/// each filled with a pattern.
pub fn create_mock_boot_image(kernel_size: u32, ramdisk_size: u32) -> (r: Vec<u8>)
    requires
        mock_sizes_ok(kernel_size, ramdisk_size),
    ensures
        r@ == mock_boot_image(kernel_size, ramdisk_size),
{
    let page_size: u32 = 2048;
    let kernel_pages = (kernel_size + page_size - 1) / page_size;
    let ramdisk_pages = (ramdisk_size + page_size - 1) / page_size;
    let total_size = (1 + kernel_pages + ramdisk_pages) as usize * page_size as usize;
    let mut data: Vec<u8> = Vec::new();
    data.push(0x41);
    data.push(0x4E);
    data.push(0x44);
    data.push(0x52);
    data.push(0x4F);
    data.push(0x49);
    data.push(0x44);
    data.push(0x21);
    assert(data@ =~= boot_magic());
    push_le32(&mut data, kernel_size);
    push_le32(&mut data, 0x10008000);
    push_le32(&mut data, ramdisk_size);
    push_le32(&mut data, 0x11000000);
    push_le32(&mut data, 0);
    push_le32(&mut data, 0);
    push_le32(&mut data, 0x10000100);
    push_le32(&mut data, page_size);
    push_le32(&mut data, 1);
    push_le32(&mut data, 0);
    assert(data@ =~= mock_header(kernel_size, ramdisk_size));
    let kernel_start: usize = 2048;
    let kernel_end = kernel_start + kernel_size as usize;
    let ramdisk_start = kernel_start + kernel_pages as usize * page_size as usize;
    let ramdisk_end = ramdisk_start + ramdisk_size as usize;
    while data.len() < total_size
        invariant
            48 <= data@.len() <= total_size,
            total_size == mock_image_len(kernel_size, ramdisk_size),
            kernel_start == 2048,
            kernel_end == 2048 + kernel_size,
            ramdisk_start == mock_ramdisk_start(kernel_size),
            ramdisk_end == ramdisk_start + ramdisk_size,
            ramdisk_end <= total_size,
            forall|j: int| 0 <= j < data@.len() ==> #[trigger] data@[j] == mock_byte(
                kernel_size,
                ramdisk_size,
                j,
            ),
        decreases total_size - data@.len(),
    {
        let i = data.len();
        let b: u8 = if kernel_start <= i && i < kernel_end {
            ((i - kernel_start) % 256) as u8
        } else if ramdisk_start <= i && i < ramdisk_end {
            (255 - (i - ramdisk_start) % 256) as u8
        } else {
            0
        };
        data.push(b);
    }
    assert(data@ =~= mock_boot_image(kernel_size, ramdisk_size));
    data
}

/// The mock ARM64 kernel of `size` bytes (at least 0x50): the magic
/// `ARM\x64` at 0x38, and byte `0x40 + j` is `j % 256`.
pub open spec fn mock_arm64_kernel(size: int) -> Seq<u8> {
    let n = if size < 0x50 {
        0x50
    } else {
        size
    };
    Seq::new(
        n as nat,
        |i: int|
            if 0x40 <= i {
                ((i - 0x40) % 256) as u8
            } else if i == 0x38 {
                0x41u8
            } else if i == 0x39 {
                0x52u8
            } else if i == 0x3A {
                0x4Du8
            } else if i == 0x3B {
                0x64u8
            } else {
                0u8
            },
    )
}

/// Create a mock ARM64 kernel binary of at least 0x50 bytes, with the
/// ARM64 magic at 0x38 and a pattern after the header.
pub fn create_mock_arm64_kernel(size: usize) -> (r: Vec<u8>)
    ensures
        r@ == mock_arm64_kernel(size as int),
{
    let n = if size < 0x50 {
        0x50
    } else {
        size
    };
    let mut data: Vec<u8> = Vec::new();
    while data.len() < n
        invariant
            data@.len() <= n,
            n == mock_arm64_kernel(size as int).len(),
            forall|j: int| 0 <= j < data@.len() ==> #[trigger] data@[j] == mock_arm64_kernel(
                size as int,
            )[j],
        decreases n - data@.len(),
    {
        let i = data.len();
        let b: u8 = if 0x40 <= i {
            ((i - 0x40) % 256) as u8
        } else if i == 0x38 {
            0x41
        } else if i == 0x39 {
            0x52
        } else if i == 0x3A {
            0x4D
        } else if i == 0x3B {
            0x64
        } else {
            0
        };
        data.push(b);
    }
    assert(data@ =~= mock_arm64_kernel(size as int));
    data
}

/// The LZ4 legacy stream of `data`: the magic, the length as a
/// little-endian `u32` (truncated), then one LZ4 block.
pub open spec fn lz4_legacy_stream(data: Seq<u8>) -> Seq<u8> {
    seq![0x02u8, 0x21u8, 0x4Cu8, 0x18u8] + le_bytes(data.len() as u32) + lz4_block_compressed(data)
}

/// Create LZ4-compressed data in the legacy format.
pub fn create_lz4_compressed(data: &[u8]) -> (r: Vec<u8>)
    ensures
        r@ == lz4_legacy_stream(data@),
        data@.len() <= u32::MAX ==> forall|out: Result<Vec<u8>, Error>|
            decompressed(r@, out) ==> (out matches Ok(v) && v@ == data@),
{
    let compressed = lz4_block_compress(data);
    let mut result: Vec<u8> = Vec::new();
    result.push(0x02);
    result.push(0x21);
    result.push(0x4C);
    result.push(0x18);
    let size = data.len() as u32;
    result.push((size & 0xff) as u8);
    result.push(((size >> 8u32) & 0xff) as u8);
    result.push(((size >> 16u32) & 0xff) as u8);
    result.push((size >> 24u32) as u8);
    let mut i: usize = 0;
    let ghost head = result@;
    while i < compressed.len()
        invariant
            i <= compressed@.len(),
            result@ == head + compressed@.subrange(0, i as int),
        decreases compressed.len() - i,
    {
        result.push(compressed[i]);
        i = i + 1;
        assert(result@ =~= head + compressed@.subrange(0, i as int));
    }
    assert(compressed@.subrange(0, i as int) =~= compressed@);
    assert(result@ =~= lz4_legacy_stream(data@));
    proof {
        if data@.len() <= u32::MAX {
            let st = result@;
            assert(detected_format(st) == CompressionFormat::Lz4Legacy);
            assert(st.subrange(4, 8) =~= le_bytes(data@.len() as u32));
            lemma_u32_at(st, 4, data@.len() as u32);
            assert(lz4_legacy_size(st) == data@.len());
            assert(st.subrange(8, st.len() as int) =~= compressed@);
        }
    }
    result
}

/// The report of two byte strings that differ: both lengths and the first
/// 100 bytes of each.
pub open spec fn mismatch_text(expected: Seq<u8>, actual: Seq<u8>) -> Seq<char> {
    let show = |s: Seq<u8>| if s.len() < 100 {
        s
    } else {
        s.subrange(0, 100)
    };
    "Byte slices not equal:\n  Expected ("@ + dec_text(expected.len()) + " bytes): "@
        + byte_list_text(show(expected)) + "...\n  Actual ("@ + dec_text(actual.len())
        + " bytes): "@ + byte_list_text(show(actual)) + "..."@
}

/// Compare two byte strings: `None` when they are equal, otherwise the
/// report of the difference.
pub fn bytes_mismatch(expected: &[u8], actual: &[u8]) -> (r: Option<String>)
    ensures
        match r {
            None => expected@ == actual@,
            Some(m) => expected@ != actual@ && m@ == mismatch_text(expected@, actual@),
        },
{
    let mut same = expected.len() == actual.len();
    let mut i: usize = 0;
    while same && i < expected.len()
        invariant
            i <= expected@.len(),
            same ==> expected@.len() == actual@.len(),
            same ==> forall|j: int| 0 <= j < i ==> expected@[j] == actual@[j],
            !same ==> expected@ != actual@,
        decreases expected.len() - i,
    {
        if expected[i] != actual[i] {
            same = false;
        }
        i = i + 1;
    }
    if same {
        assert(expected@ =~= actual@);
        return None;
    }
    let exp_show = if expected.len() < 100 {
        expected
    } else {
        vstd::slice::slice_subrange(expected, 0, 100)
    };
    let act_show = if actual.len() < 100 {
        actual
    } else {
        vstd::slice::slice_subrange(actual, 0, 100)
    };
    let mut m = text("Byte slices not equal:\n  Expected (");
    push_dec(&mut m, expected.len() as u64);
    push_str(&mut m, " bytes): ");
    push_byte_list(&mut m, exp_show);
    push_str(&mut m, "...\n  Actual (");
    push_dec(&mut m, actual.len() as u64);
    push_str(&mut m, " bytes): ");
    push_byte_list(&mut m, act_show);
    push_str(&mut m, "...");
    assert(m@ =~= mismatch_text(expected@, actual@));
    Some(m)
}

/// A mock boot image parses as it was made: it starts with the boot magic,
/// its header can be read, the header gives the kernel and ramdisk sizes,
/// 2048-byte pages and version 1, and the kernel and ramdisk regions the
/// header places hold their patterns.
pub proof fn law_mock_boot_image_parses(kernel_size: u32, ramdisk_size: u32)
    requires
        mock_sizes_ok(kernel_size, ramdisk_size),
    ensures
        ({
            let d = mock_boot_image(kernel_size, ramdisk_size);
            &&& starts_with_bytes(d, boot_magic())
            &&& header_readable(d)
            &&& header_field(d, 0) == kernel_size
            &&& header_field(d, 1) == 0x10008000
            &&& header_field(d, 2) == ramdisk_size
            &&& header_field(d, 3) == 0x11000000
            &&& header_field(d, 7) == 2048
            &&& header_field(d, 8) == 1
            &&& 2048 + kernel_size <= d.len()
            &&& d.subrange(2048, 2048 + kernel_size) == mock_kernel_bytes(kernel_size)
            &&& ramdisk_start(d) + ramdisk_size <= d.len()
            &&& d.subrange(ramdisk_start(d), ramdisk_start(d) + ramdisk_size) == mock_ramdisk_bytes(
                ramdisk_size,
            )
        }),
{
    let d = mock_boot_image(kernel_size, ramdisk_size);
    let h = mock_header(kernel_size, ramdisk_size);
    assert(h.len() == 48);
    assert(d.subrange(0, 48) =~= h);
    assert(d.subrange(0, 8) =~= boot_magic());
    assert(d.subrange(8, 12) =~= le_bytes(kernel_size));
    lemma_u32_at(d, 8, kernel_size);
    assert(d.subrange(12, 16) =~= le_bytes(0x10008000));
    lemma_u32_at(d, 12, 0x10008000);
    assert(d.subrange(16, 20) =~= le_bytes(ramdisk_size));
    lemma_u32_at(d, 16, ramdisk_size);
    assert(d.subrange(20, 24) =~= le_bytes(0x11000000));
    lemma_u32_at(d, 20, 0x11000000);
    assert(d.subrange(36, 40) =~= le_bytes(2048));
    lemma_u32_at(d, 36, 2048);
    assert(d.subrange(40, 44) =~= le_bytes(1));
    lemma_u32_at(d, 40, 1);
    assert(ramdisk_start(d) == mock_ramdisk_start(kernel_size));
    assert(mock_pages(kernel_size) * 2048 >= kernel_size) by (nonlinear_arith)
        requires
            mock_pages(kernel_size) == (kernel_size + 2047) / 2048,
    ;
    assert(mock_pages(ramdisk_size) * 2048 >= ramdisk_size) by (nonlinear_arith)
        requires
            mock_pages(ramdisk_size) == (ramdisk_size + 2047) / 2048,
    ;
    assert(d.subrange(2048, 2048 + kernel_size) =~= mock_kernel_bytes(kernel_size));
    assert(d.subrange(ramdisk_start(d), ramdisk_start(d) + ramdisk_size) =~= mock_ramdisk_bytes(
        ramdisk_size,
    ));
}

/// A mock ARM64 kernel is taken for AArch64, by the scanner and by the
/// probe.
pub proof fn law_mock_arm64_kernel_detected(size: int)
    ensures
        detected_arch(mock_arm64_kernel(size)) == KernelArch::Arm64,
        magic_arch(mock_arm64_kernel(size)) == crate::probe::KernelArch::Arm64,
{
}

} // verus!
