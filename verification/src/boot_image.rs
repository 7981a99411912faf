//! Android boot image parser.
//!
//! Supports the traditional format with the `ANDROID!` magic (V0-V2); the
//! vendor boot format with the `VNDRBOOT` magic (V3/V4) is recognised but
//! not parsed.
//!
//! The V0 header is, little-endian: the magic, ten `u32` fields (kernel
//! size and address, ramdisk size and address, second stage size and
//! address, tags address, page size, header version, OS version) and a
//! 512-byte zero-terminated command line. The kernel starts at the second
//! page and the ramdisk at the page after the kernel.

use crate::byte_io::{read_u32, u32_at};
use crate::error::Error;
use crate::kallsyms::decoder::token_end;
use crate::text::{
    byte_list_text, dec_text, push_byte_list, push_dec, push_str, text, utf8_lossy,
    utf8_lossy_text,
};
use vstd::prelude::*;

verus! {

/// Magic bytes for Android boot image V0-V2: `ANDROID!`.
pub const BOOT_MAGIC: [u8; 8] = [0x41, 0x4E, 0x44, 0x52, 0x4F, 0x49, 0x44, 0x21];

/// Magic bytes for Vendor boot image V3+: `VNDRBOOT`.
pub const VENDOR_BOOT_MAGIC: [u8; 8] = [0x56, 0x4E, 0x44, 0x52, 0x42, 0x4F, 0x4F, 0x54];

/// Size of the boot image magic field.
pub const BOOT_MAGIC_SIZE: usize = 8;

/// Size of the V0 header up to and including the command line.
pub const BOOT_HEADER_SIZE: usize = 560;

/// Detected boot image version.
#[derive(Debug, Clone, Copy, PartialEq, Eq, Structural)]
pub enum BootImageVersion {
    /// Legacy format (V0-V2).
    V0,
    /// Traditional format V1.
    V1,
    /// Traditional format V2.
    V2,
    /// Modern GKI format (V3+).
    V3,
    /// GKI format V4.
    V4,
    /// Unknown or unsupported.
    Unknown(u32),
}

/// The version a header version number names.
pub open spec fn version_of(v: u32) -> BootImageVersion {
    if v == 0 {
        BootImageVersion::V0
    } else if v == 1 {
        BootImageVersion::V1
    } else if v == 2 {
        BootImageVersion::V2
    } else if v == 3 {
        BootImageVersion::V3
    } else if v == 4 {
        BootImageVersion::V4
    } else {
        BootImageVersion::Unknown(v)
    }
}

impl From<u32> for BootImageVersion {
    fn from(value: u32) -> (r: Self) {
        match value {
            0 => BootImageVersion::V0,
            1 => BootImageVersion::V1,
            2 => BootImageVersion::V2,
            3 => BootImageVersion::V3,
            4 => BootImageVersion::V4,
            v => BootImageVersion::Unknown(v),
        }
    }
}

impl vstd::std_specs::convert::FromSpecImpl<u32> for BootImageVersion {
    open spec fn obeys_from_spec() -> bool {
        true
    }

    open spec fn from_spec(v: u32) -> BootImageVersion {
        version_of(v)
    }
}

/// Parsed boot image header (common fields).
#[derive(Debug, Clone)]
pub struct BootImageHeader {
    /// Boot image format version.
    pub version: BootImageVersion,
    /// Kernel size in bytes.
    pub kernel_size: u32,
    /// Kernel load address.
    pub kernel_addr: u32,
    /// Ramdisk size in bytes.
    pub ramdisk_size: u32,
    /// Ramdisk load address.
    pub ramdisk_addr: u32,
    /// Second stage bootloader size (V0-V2 only).
    pub second_size: u32,
    /// Page size (typically 2048 or 4096).
    pub page_size: u32,
    /// OS version (packed format).
    pub os_version: u32,
    /// Command line (null-terminated).
    pub cmdline: String,
    /// Offset to kernel data within the image.
    pub kernel_offset: usize,
    /// Offset to ramdisk data within the image.
    pub ramdisk_offset: usize,
}

/// Header field `k` (0 to 9): the little-endian `u32` after the magic.
pub open spec fn header_field(d: Seq<u8>, k: int) -> u32 {
    u32_at(d, 8 + 4 * k, false)
}

/// The command line bytes: the 512-byte field up to its first zero byte.
pub open spec fn cmdline_bytes(d: Seq<u8>) -> Seq<u8> {
    let c = d.subrange(48, 560);
    c.subrange(0, token_end(c, 0))
}

/// Whether the image starts with `magic`.
pub open spec fn starts_with_bytes(d: Seq<u8>, magic: Seq<u8>) -> bool {
    magic.len() <= d.len() && d.subrange(0, magic.len() as int) == magic
}

/// `ANDROID!`.
pub open spec fn boot_magic() -> Seq<u8> {
    seq![65u8, 78u8, 68u8, 82u8, 79u8, 73u8, 68u8, 33u8]
}

/// `VNDRBOOT`.
pub open spec fn vendor_boot_magic() -> Seq<u8> {
    seq![86u8, 78u8, 68u8, 82u8, 66u8, 79u8, 79u8, 84u8]
}

/// The pages a kernel of `size` bytes takes, with pages of `page` bytes.
pub open spec fn pages_for(size: int, page: int) -> int {
    (size + page - 1) / page
}

/// Where the ramdisk starts: the page after the kernel's pages.
pub open spec fn ramdisk_start(d: Seq<u8>) -> int {
    let page = header_field(d, 7) as int;
    page + pages_for(header_field(d, 0) as int, page) * page
}

/// Where a truncated header stops parsing: the first field that does not
/// fit.
pub open spec fn header_cut(d: Seq<u8>) -> int {
    if d.len() < 48 {
        8 + 4 * ((d.len() - 8) / 4)
    } else {
        48
    }
}

/// The text of the end-of-input error at `cut`: the unparsed bytes, as
/// the byte parser reports them.
pub open spec fn eof_text(d: Seq<u8>, cut: int) -> Seq<char> {
    "Error(Error { input: "@ + byte_list_text(d.subrange(cut, d.len() as int))
        + ", code: Eof })"@
}

/// Whether `h` is the header read from the image `d`.
pub open spec fn header_of(d: Seq<u8>, h: BootImageHeader) -> bool {
    &&& h.kernel_size == header_field(d, 0)
    &&& h.kernel_addr == header_field(d, 1)
    &&& h.ramdisk_size == header_field(d, 2)
    &&& h.ramdisk_addr == header_field(d, 3)
    &&& h.second_size == header_field(d, 4)
    &&& h.page_size == header_field(d, 7)
    &&& h.version == version_of(header_field(d, 8))
    &&& h.os_version == header_field(d, 9)
    &&& h.cmdline@ == utf8_lossy_text(cmdline_bytes(d))
    &&& h.kernel_offset == header_field(d, 7)
    &&& h.ramdisk_offset == ramdisk_start(d)
}

/// Whether a V0 header can be read from `d`: the whole header is there, the
/// page size is not zero and the ramdisk offset fits in `usize`.
pub open spec fn header_readable(d: Seq<u8>) -> bool {
    &&& d.len() >= 560
    &&& header_field(d, 7) != 0
    &&& ramdisk_start(d) <= usize::MAX
}

/// The text of the error for input that does not start with the magic: the
/// whole input, as it was not consumed.
pub open spec fn tag_text(d: Seq<u8>) -> Seq<char> {
    "Error(Error { input: "@ + byte_list_text(d) + ", code: Tag })"@
}

/// Whether `e` is the error reading a V0 header from `d` gives.
pub open spec fn header_error(d: Seq<u8>, e: Error) -> bool {
    if !starts_with_bytes(d, boot_magic()) {
        e is ParseError && e->ParseError_0@ == tag_text(d)
    } else if d.len() < 560 {
        e is ParseError && e->ParseError_0@ == eof_text(d, header_cut(d))
    } else if header_field(d, 7) == 0 {
        e is InvalidBootImage && e->InvalidBootImage_0@ == "Page size is zero"@
    } else {
        e is InvalidBootImage && e->InvalidBootImage_0@ == "Ramdisk offset does not fit"@
    }
}

/// Whether `e` is the error parsing the boot image `d` gives.
pub open spec fn boot_image_error(d: Seq<u8>, e: Error) -> bool {
    if d.len() < 8 {
        e is InvalidBootImage && e->InvalidBootImage_0@ == "File too small"@
    } else if starts_with_bytes(d, boot_magic()) {
        !header_readable(d) && header_error(d, e)
    } else if starts_with_bytes(d, vendor_boot_magic()) {
        e is InvalidBootImage && e->InvalidBootImage_0@
            == "Vendor boot image parsing not yet implemented"@
    } else {
        e matches Error::MagicMismatch { expected, found } && expected@ == "ANDROID! or VNDRBOOT"@
            && found@ == byte_list_text(d.subrange(0, 8))
    }
}

/// The text of the error for a region that runs past the file.
pub open spec fn beyond_file_text(what: Seq<char>, offset: int, size: int, len: int) -> Seq<char> {
    what + " extends beyond file: offset="@ + dec_text(offset as nat) + ", size="@ + dec_text(
        size as nat,
    ) + ", file_len="@ + dec_text(len as nat)
}

/// Represents a parsed Android boot image.
#[derive(Debug)]
pub struct BootImage {
    /// Parsed header information.
    pub header: BootImageHeader,
    /// Raw file data.
    data: Vec<u8>,
}

/// The fields a V0 header holds, as read.
struct RawBootHeader {
    version: BootImageVersion,
    kernel_size: u32,
    kernel_addr: u32,
    ramdisk_size: u32,
    ramdisk_addr: u32,
    second_size: u32,
    page_size: u32,
    os_version: u32,
    cmdline: String,
}

/// Whether a raw header holds the fields of `d`.
spec fn raw_header_of(d: Seq<u8>, h: RawBootHeader) -> bool {
    &&& h.kernel_size == header_field(d, 0)
    &&& h.kernel_addr == header_field(d, 1)
    &&& h.ramdisk_size == header_field(d, 2)
    &&& h.ramdisk_addr == header_field(d, 3)
    &&& h.second_size == header_field(d, 4)
    &&& h.page_size == header_field(d, 7)
    &&& h.version == version_of(header_field(d, 8))
    &&& h.os_version == header_field(d, 9)
    &&& h.cmdline@ == utf8_lossy_text(cmdline_bytes(d))
}

/// Whether `d` starts with `magic`, compared byte by byte.
fn starts_with_magic(d: &[u8], magic: &[u8]) -> (r: bool)
    ensures
        r == starts_with_bytes(d@, magic@),
{
    if d.len() < magic.len() {
        return false;
    }
    let mut i: usize = 0;
    while i < magic.len()
        invariant
            magic@.len() <= d@.len(),
            i <= magic@.len(),
            forall|k: int| 0 <= k < i ==> d@[k] == magic@[k],
        decreases magic.len() - i,
    {
        if d[i] != magic[i] {
            assert(d@.subrange(0, magic@.len() as int)[i as int] != magic@[i as int]);
            return false;
        }
        i = i + 1;
    }
    assert(d@.subrange(0, magic@.len() as int) =~= magic@);
    true
}

/// Reads the `u32` header field `k` of an image that holds the header.
fn field(data: &[u8], k: usize) -> (r: u32)
    requires
        k < 10,
        data@.len() >= 48,
    ensures
        r == header_field(data@, k as int),
{
    match read_u32(data, 8 + 4 * k, true) {
        Some(v) => v,
        None => 0,
    }
}

/// Parse the V0 header of an Android boot image, returning the bytes after
/// it and the header.
///
/// Input that does not start with `ANDROID!` gives the tag error with the
/// whole input; a truncated header gives the end-of-input error at the first
/// field that does not fit, with the bytes left unparsed.
fn parse_boot_header_v0(input: &[u8]) -> (r: Result<(&[u8], RawBootHeader), String>)
    ensures
        match r {
            Ok((rest, h)) => starts_with_bytes(input@, boot_magic()) && input@.len() >= 560
                && rest@ == input@.subrange(560, input@.len() as int) && raw_header_of(input@, h),
            Err(t) => if !starts_with_bytes(input@, boot_magic()) {
                t@ == tag_text(input@)
            } else {
                input@.len() < 560 && t@ == eof_text(input@, header_cut(input@))
            },
        },
{
    let boot = BOOT_MAGIC.as_slice();
    assert(boot@ =~= boot_magic());
    if !starts_with_magic(input, boot) {
        let mut t = text("Error(Error { input: ");
        push_byte_list(&mut t, input);
        push_str(&mut t, ", code: Tag })");
        return Err(t);
    }
    if input.len() < 560 {
        let cut: usize = if input.len() < 48 {
            8 + 4 * ((input.len() - 8) / 4)
        } else {
            48
        };
        let mut t = text("Error(Error { input: ");
        push_byte_list(&mut t, vstd::slice::slice_subrange(input, cut, input.len()));
        push_str(&mut t, ", code: Eof })");
        return Err(t);
    }
    let cmdline_field = vstd::slice::slice_subrange(input, 48, 560);
    let mut end: usize = 0;
    while end < 512 && cmdline_field[end] != 0
        invariant
            cmdline_field@.len() == 512,
            end <= 512,
            forall|k: int| 0 <= k < end ==> cmdline_field@[k] != 0,
        decreases 512 - end,
    {
        end = end + 1;
    }
    proof {
        lemma_first_zero(cmdline_field@, 0, end as int);
        assert(cmdline_field@ =~= input@.subrange(48, 560));
    }
    let cmdline = utf8_lossy(vstd::slice::slice_subrange(cmdline_field, 0, end));
    let rest = vstd::slice::slice_subrange(input, 560, input.len());
    Ok((
        rest,
        RawBootHeader {
            version: BootImageVersion::from(field(input, 8)),
            kernel_size: field(input, 0),
            kernel_addr: field(input, 1),
            ramdisk_size: field(input, 2),
            ramdisk_addr: field(input, 3),
            second_size: field(input, 4),
            page_size: field(input, 7),
            os_version: field(input, 9),
            cmdline,
        },
    ))
}

/// `token_end` from `start` is `end` when no zero byte comes before it and
/// one comes at it (or the data ends).
proof fn lemma_first_zero(d: Seq<u8>, start: int, end: int)
    requires
        0 <= start <= end <= d.len(),
        forall|k: int| start <= k < end ==> d[k] != 0,
        end == d.len() || d[end] == 0,
    ensures
        token_end(d, start) == end,
    decreases end - start,
{
    if start < end {
        lemma_first_zero(d, start + 1, end);
    }
}

impl BootImage {
    /// The raw image.
    pub closed spec fn data_view(&self) -> Seq<u8> {
        self.data@
    }

    /// The parsed header.
    pub closed spec fn header_view(&self) -> BootImageHeader {
        self.header
    }

    /// The parsed header.
    pub fn header(&self) -> (r: &BootImageHeader)
        ensures
            *r == self.header_view(),
    {
        &self.header
    }

    /// The parsed header, the image given up.
    pub fn into_header(self) -> (r: BootImageHeader)
        ensures
            r == self.header_view(),
    {
        self.header
    }

    /// Parse a boot image from raw bytes.
    ///
    /// Images under 8 bytes are too small; `ANDROID!` images get their V0
    /// header read; `VNDRBOOT` images are not supported; anything else is a
    /// magic mismatch that shows the first 8 bytes.
    pub fn from_bytes(data: Vec<u8>) -> (r: Result<Self, Error>)
        ensures
            match r {
                Ok(img) => img.data_view() == data@ && data@.len() >= 8 && starts_with_bytes(
                    data@,
                    boot_magic(),
                ) && header_readable(data@) && header_of(data@, img.header_view()),
                Err(e) => boot_image_error(data@, e),
            },
    {
        if data.len() < BOOT_MAGIC_SIZE {
            return Err(Error::InvalidBootImage(text("File too small")));
        }
        let boot = BOOT_MAGIC.as_slice();
        let vendor = VENDOR_BOOT_MAGIC.as_slice();
        assert(boot@ =~= boot_magic());
        assert(vendor@ =~= vendor_boot_magic());
        let header = if starts_with_magic(data.as_slice(), boot) {
            match Self::parse_android_header(data.as_slice()) {
                Ok(h) => h,
                Err(e) => {
                    return Err(e);
                },
            }
        } else if starts_with_magic(data.as_slice(), vendor) {
            match Self::parse_vendor_header(data.as_slice()) {
                Ok(h) => h,
                Err(e) => {
                    return Err(e);
                },
            }
        } else {
            let mut found = String::new();
            push_byte_list(&mut found, vstd::slice::slice_subrange(data.as_slice(), 0, 8));
            return Err(
                Error::MagicMismatch { expected: text("ANDROID! or VNDRBOOT"), found },
            );
        };
        Ok(BootImage { header, data })
    }

    /// The kernel region, as the header places it.
    pub open spec fn kernel_region(&self) -> (int, int) {
        (self.header_view().kernel_offset as int, self.header_view().kernel_size as int)
    }

    /// Extract the raw kernel binary from the boot image (it may still be
    /// compressed).
    pub fn extract_kernel(&self) -> (r: Result<&[u8], Error>)
        ensures
            ({
                let (start, size) = self.kernel_region();
                match r {
                    Ok(k) => start + size <= self.data_view().len() && k@
                        == self.data_view().subrange(start, start + size),
                    Err(e) => start + size > self.data_view().len() && e is InvalidBootImage
                        && e->InvalidBootImage_0@ == beyond_file_text(
                        "Kernel"@,
                        start,
                        size,
                        self.data_view().len() as int,
                    ),
                }
            }),
    {
        let start = self.header.kernel_offset;
        let size = self.header.kernel_size as usize;
        if start > self.data.len() || size > self.data.len() - start {
            let mut m = text("Kernel extends beyond file: offset=");
            push_dec(&mut m, start as u64);
            push_str(&mut m, ", size=");
            push_dec(&mut m, self.header.kernel_size as u64);
            push_str(&mut m, ", file_len=");
            push_dec(&mut m, self.data.len() as u64);
            assert(m@ =~= beyond_file_text(
                "Kernel"@,
                start as int,
                self.header.kernel_size as int,
                self.data@.len() as int,
            )) by {
                reveal_strlit("Kernel extends beyond file: offset=");
                reveal_strlit("Kernel");
                reveal_strlit(" extends beyond file: offset=");
            }
            return Err(Error::InvalidBootImage(m));
        }
        Ok(vstd::slice::slice_subrange(self.data.as_slice(), start, start + size))
    }

    /// Extract the ramdisk from the boot image.
    pub fn extract_ramdisk(&self) -> (r: Result<&[u8], Error>)
        ensures
            ({
                let start = self.header_view().ramdisk_offset as int;
                let size = self.header_view().ramdisk_size as int;
                match r {
                    Ok(k) => start + size <= self.data_view().len() && k@
                        == self.data_view().subrange(start, start + size),
                    Err(e) => start + size > self.data_view().len() && e is InvalidBootImage
                        && e->InvalidBootImage_0@ == beyond_file_text(
                        "Ramdisk"@,
                        start,
                        size,
                        self.data_view().len() as int,
                    ),
                }
            }),
    {
        let start = self.header.ramdisk_offset;
        let size = self.header.ramdisk_size as usize;
        if start > self.data.len() || size > self.data.len() - start {
            let mut m = text("Ramdisk extends beyond file: offset=");
            push_dec(&mut m, start as u64);
            push_str(&mut m, ", size=");
            push_dec(&mut m, self.header.ramdisk_size as u64);
            push_str(&mut m, ", file_len=");
            push_dec(&mut m, self.data.len() as u64);
            assert(m@ =~= beyond_file_text(
                "Ramdisk"@,
                start as int,
                self.header.ramdisk_size as int,
                self.data@.len() as int,
            )) by {
                reveal_strlit("Ramdisk extends beyond file: offset=");
                reveal_strlit("Ramdisk");
                reveal_strlit(" extends beyond file: offset=");
            }
            return Err(Error::InvalidBootImage(m));
        }
        Ok(vstd::slice::slice_subrange(self.data.as_slice(), start, start + size))
    }

    /// Read the V0 header and place the kernel and ramdisk by pages.
    fn parse_android_header(data: &[u8]) -> (r: Result<BootImageHeader, Error>)
        ensures
            match r {
                Ok(h) => starts_with_bytes(data@, boot_magic()) && header_readable(data@)
                    && header_of(data@, h),
                Err(e) => !(starts_with_bytes(data@, boot_magic()) && header_readable(data@))
                    && header_error(data@, e),
            },
    {
        let header = match parse_boot_header_v0(data) {
            Ok((_rest, h)) => h,
            Err(t) => {
                return Err(Error::ParseError(t));
            },
        };
        if header.page_size == 0 {
            return Err(Error::InvalidBootImage(text("Page size is zero")));
        }
        let page_size = header.page_size as u64;
        let kernel_size = header.kernel_size as u64;
        let kernel_pages = (kernel_size + page_size - 1) / page_size;
        assert(kernel_pages * page_size <= kernel_size + page_size) by (nonlinear_arith)
            requires
                page_size > 0,
                kernel_pages == (kernel_size + page_size - 1) / (page_size as int),
        ;
        let ramdisk_offset = page_size + kernel_pages * page_size;
        if ramdisk_offset > usize::MAX as u64 {
            return Err(Error::InvalidBootImage(text("Ramdisk offset does not fit")));
        }
        Ok(
            BootImageHeader {
                version: header.version,
                kernel_size: header.kernel_size,
                kernel_addr: header.kernel_addr,
                ramdisk_size: header.ramdisk_size,
                ramdisk_addr: header.ramdisk_addr,
                second_size: header.second_size,
                page_size: header.page_size,
                os_version: header.os_version,
                cmdline: header.cmdline,
                kernel_offset: header.page_size as usize,
                ramdisk_offset: ramdisk_offset as usize,
            },
        )
    }

    /// Vendor boot images (V3/V4) are not parsed.
    fn parse_vendor_header(_data: &[u8]) -> (r: Result<BootImageHeader, Error>)
        ensures
            r matches Err(e) && e is InvalidBootImage && e->InvalidBootImage_0@
                == "Vendor boot image parsing not yet implemented"@,
    {
        Err(Error::InvalidBootImage(text("Vendor boot image parsing not yet implemented")))
    }
}


/// The ramdisk starts at the first page boundary at or after the end of the
/// kernel, which starts one page in: for a header with a non-zero page size
/// `p` and kernel size `k`, the ramdisk offset is a multiple of `p`, at
/// least `p + k`, and less than `p + k + p`. The kernel starts at `p`.
pub proof fn law_ramdisk_follows_kernel(d: Seq<u8>, h: BootImageHeader)
    requires
        header_of(d, h),
        h.page_size != 0,
    ensures
        h.kernel_offset == h.page_size,
        (h.ramdisk_offset as int) % (h.page_size as int) == 0,
        h.page_size + h.kernel_size <= h.ramdisk_offset,
        h.ramdisk_offset < h.page_size + h.kernel_size + h.page_size,
{
    let p = h.page_size as int;
    let k = h.kernel_size as int;
    let m = (k + p - 1) / p;
    assert(h.ramdisk_offset == p + m * p);
    assert((p + m * p) % p == 0 && k <= m * p && m * p < k + p) by (nonlinear_arith)
        requires
            p > 0,
            k >= 0,
            m == (k + p - 1) / p,
    ;
}

} // verus!
