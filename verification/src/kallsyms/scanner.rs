//! Kallsyms table discovery.
//!
//! The tables are found from anchors: the token table (recognised by the
//! tokens "0" to "9"), its index, the markers table before it, the symbol
//! count and names table before the markers, and finally the addresses (or
//! relative offsets) table before the count.

use crate::byte_io::{i32_at, read_i32, read_u8, read_u16, read_u32, read_u64, u16_at, u32_at, u64_at};
use crate::error::Error;
use crate::kallsyms::decoder::{buffer_len_ok, token_end};
use crate::kallsyms::arch::relative::{add_signed, wrapping_add_signed};
use crate::byte_io::{be16, le16};
use crate::kallsyms::types::{
    arch_is_64bit, arch_pointer_size, kallsyms_error_text, AddressFormat, KallsymsConfig,
    KallsymsError, KernelArch,
};
use vstd::prelude::*;

verus! {

/// Results of the initial kallsyms scan.
#[derive(Debug, Clone, Copy, PartialEq, Eq, Structural)]
pub struct ScanResult {
    /// Offset to kallsyms_addresses table (or offsets table).
    pub addresses_offset: usize,
    /// Offset to kallsyms_names table.
    pub names_offset: usize,
    /// Offset to kallsyms_token_table.
    pub token_table_offset: usize,
    /// Offset to kallsyms_token_index.
    pub token_index_offset: usize,
    /// Start of kallsyms_markers table.
    pub markers_offset: usize,
    /// Number of symbols found.
    pub num_symbols: usize,
    /// Detected or confirmed architecture.
    pub arch: KernelArch,
    /// Detected endianness (true for big-endian).
    pub big_endian: bool,
    /// Detected relative base (if any).
    pub relative_base_address: Option<u64>,
}

// ------------------------------------------------------------------
// Architecture detection
// ------------------------------------------------------------------

/// How much of the image is scanned for instruction patterns.
pub open spec fn arch_scan_limit(len: int) -> int {
    if len < 0x10_0000 {
        len
    } else {
        0x10_0000
    }
}

/// The AArch64 `ret` instruction (either byte order) at `i`.
pub open spec fn is_arm64_ret_at(d: Seq<u8>, i: int) -> bool {
    (d[i] == 0xc0 && d[i + 1] == 0x03 && d[i + 2] == 0x5f && d[i + 3] == 0xd6) || (d[i] == 0xd6
        && d[i + 1] == 0x5f && d[i + 2] == 0x03 && d[i + 3] == 0xc0)
}

/// The x86_64 prologue `push rbp; mov rbp, rsp` at `i`.
pub open spec fn is_x86_64_prologue_at(d: Seq<u8>, i: int) -> bool {
    d[i] == 0x55 && d[i + 1] == 0x48 && d[i + 2] == 0x89 && d[i + 3] == 0xe5
}

/// An ARM32 `stmfd sp!, {..., lr}` at `i`.
pub open spec fn is_arm32_push_at(d: Seq<u8>, i: int) -> bool {
    d[i + 3] == 0xe9 && d[i + 2] == 0x2d && (d[i + 1] & 0x40) != 0
}

/// Number of the first `n` aligned 4-byte chunks that are a `ret`.
pub open spec fn arm64_ret_count(d: Seq<u8>, n: int) -> int
    decreases n,
{
    if n <= 0 {
        0
    } else {
        arm64_ret_count(d, n - 1) + if is_arm64_ret_at(d, 4 * (n - 1)) {
            1int
        } else {
            0int
        }
    }
}

/// Number of positions below `n` holding an x86_64 prologue.
pub open spec fn x86_64_prologue_count(d: Seq<u8>, n: int) -> int
    decreases n,
{
    if n <= 0 {
        0
    } else {
        x86_64_prologue_count(d, n - 1) + if is_x86_64_prologue_at(d, n - 1) {
            1int
        } else {
            0int
        }
    }
}

/// Number of positions below `n` holding an ARM32 push.
pub open spec fn arm32_push_count(d: Seq<u8>, n: int) -> int
    decreases n,
{
    if n <= 0 {
        0
    } else {
        arm32_push_count(d, n - 1) + if is_arm32_push_at(d, n - 1) {
            1int
        } else {
            0int
        }
    }
}

/// `n - k`, or 0 when `k` is larger.
pub open spec fn sat_sub_int(n: int, k: int) -> int {
    if n >= k {
        n - k
    } else {
        0
    }
}

/// The architecture an image shows.
///
/// Header magics decide first (`ARM\x64` at 0x38, then the boot signature
/// `55 AA` at 0x1FE); otherwise, within the first MiB: more than 20 aligned
/// AArch64 `ret`s, else more than 10 x86_64 prologues, else more than 20
/// ARM32 pushes (the last window position is not examined for the latter
/// two).
pub open spec fn detected_arch(d: Seq<u8>) -> KernelArch {
    let w = arch_scan_limit(d.len() as int);
    if d.len() > 0x40 && d[0x38] == 0x41 && d[0x39] == 0x52 && d[0x3a] == 0x4d && d[0x3b] == 0x64 {
        KernelArch::Arm64
    } else if d.len() > 0x200 && d[0x1fe] == 0x55 && d[0x1ff] == 0xaa {
        KernelArch::X86_64
    } else if arm64_ret_count(d, w / 4) > 20 {
        KernelArch::Arm64
    } else if x86_64_prologue_count(d, sat_sub_int(w, 4)) > 10 {
        KernelArch::X86_64
    } else if arm32_push_count(d, sat_sub_int(w, 4)) > 20 {
        KernelArch::Arm32
    } else {
        KernelArch::Unknown
    }
}

/// Detect kernel architecture using header magics and instruction patterns.
pub fn detect_architecture(data: &[u8]) -> (r: KernelArch)
    ensures
        r == detected_arch(data@),
{
    let len = data.len();
    if len > 0x40 && data[0x38] == 0x41 && data[0x39] == 0x52 && data[0x3a] == 0x4d && data[0x3b]
        == 0x64 {
        return KernelArch::Arm64;
    }
    if len > 0x200 && data[0x1fe] == 0x55 && data[0x1ff] == 0xaa {
        return KernelArch::X86_64;
    }
    let scan_limit = if len < 0x10_0000 {
        len
    } else {
        0x10_0000
    };
    let mut ret_count: usize = 0;
    let mut c: usize = 0;
    while c < scan_limit / 4
        invariant
            scan_limit == arch_scan_limit(data@.len() as int),
            scan_limit <= data@.len(),
            c <= scan_limit / 4,
            ret_count == arm64_ret_count(data@, c as int),
            ret_count <= c,
        decreases scan_limit / 4 - c,
    {
        let i = 4 * c;
        if (data[i] == 0xc0 && data[i + 1] == 0x03 && data[i + 2] == 0x5f && data[i + 3] == 0xd6)
            || (data[i] == 0xd6 && data[i + 1] == 0x5f && data[i + 2] == 0x03 && data[i + 3]
            == 0xc0) {
            ret_count = ret_count + 1;
        }
        c = c + 1;
    }
    if ret_count > 20 {
        return KernelArch::Arm64;
    }
    let positions = if scan_limit >= 4 {
        scan_limit - 4
    } else {
        0
    };
    let mut x86_64_count: usize = 0;
    let mut i: usize = 0;
    while i < positions
        invariant
            positions == sat_sub_int(scan_limit as int, 4),
            scan_limit <= data@.len(),
            i <= positions,
            x86_64_count == x86_64_prologue_count(data@, i as int),
            x86_64_count <= i,
        decreases positions - i,
    {
        if data[i] == 0x55 && data[i + 1] == 0x48 && data[i + 2] == 0x89 && data[i + 3] == 0xe5 {
            x86_64_count = x86_64_count + 1;
        }
        i = i + 1;
    }
    if x86_64_count > 10 {
        return KernelArch::X86_64;
    }
    let mut arm32_count: usize = 0;
    let mut i: usize = 0;
    while i < positions
        invariant
            positions == sat_sub_int(scan_limit as int, 4),
            scan_limit <= data@.len(),
            i <= positions,
            arm32_count == arm32_push_count(data@, i as int),
            arm32_count <= i,
        decreases positions - i,
    {
        if data[i + 3] == 0xe9 && data[i + 2] == 0x2d && (data[i + 1] & 0x40) != 0 {
            arm32_count = arm32_count + 1;
        }
        i = i + 1;
    }
    if arm32_count > 20 {
        return KernelArch::Arm32;
    }
    KernelArch::Unknown
}

// ------------------------------------------------------------------
// Configuration
// ------------------------------------------------------------------

/// The configuration a scan implies: relative format when a relative base
/// was found (which is then also the kernel base), otherwise absolute
/// addresses of the architecture's width.
pub open spec fn config_of(scan: ScanResult) -> KallsymsConfig {
    match scan.relative_base_address {
        Some(b) => KallsymsConfig {
            arch: scan.arch,
            format: AddressFormat::Relative32,
            kernel_base: b,
            relative_base: Some(b),
            big_endian: scan.big_endian,
        },
        None => KallsymsConfig {
            arch: scan.arch,
            format: if arch_is_64bit(scan.arch) {
                AddressFormat::Absolute64
            } else {
                AddressFormat::Absolute32
            },
            kernel_base: 0,
            relative_base: None,
            big_endian: scan.big_endian,
        },
    }
}

/// Infer the address format and kernel base from a scan.
pub fn infer_config(scan: &ScanResult) -> (r: Result<KallsymsConfig, Error>)
    ensures
        r == Ok::<KallsymsConfig, Error>(config_of(*scan)),
{
    let mut config = KallsymsConfig {
        arch: scan.arch,
        big_endian: scan.big_endian,
        ..Default::default()
    };
    match scan.relative_base_address {
        Some(rel_base) => {
            config.format = AddressFormat::Relative32;
            config.relative_base = Some(rel_base);
            config.kernel_base = rel_base;
        },
        None => {
            config.format = if scan.arch.is_64bit() {
                AddressFormat::Absolute64
            } else {
                AddressFormat::Absolute32
            };
        },
    }
    Ok(config)
}

// ------------------------------------------------------------------
// Kernel base check
// ------------------------------------------------------------------

/// Whether `base` looks like a kernel base for `arch`: on 64-bit, in the
/// kernel half with top 16 bits 0xFFFF, 0xFFFE or 0xFFFD; on 32-bit, at or
/// above 0x8000_0000 and page-aligned.
pub open spec fn valid_kernel_base(base: u64, arch: KernelArch) -> bool {
    if arch_is_64bit(arch) {
        base >= 0xFFFF_0000_0000_0000 && ((base >> 48u64) == 0xFFFF || (base >> 48u64) == 0xFFFE
            || (base >> 48u64) == 0xFFFD)
    } else {
        base >= 0x8000_0000 && (base & 0xFFF) == 0
    }
}

/// Validate that a kernel base address looks reasonable.
fn is_valid_kernel_base(base: u64, arch: KernelArch) -> (r: bool)
    ensures
        r == valid_kernel_base(base, arch),
{
    if arch.is_64bit() {
        if base < 0xFFFF_0000_0000_0000 {
            return false;
        }
        let high_nibbles = base >> 48u64;
        high_nibbles == 0xFFFF || high_nibbles == 0xFFFE || high_nibbles == 0xFFFD
    } else {
        base >= 0x8000_0000 && (base & 0xFFF) == 0
    }
}

/// On 64-bit architectures a base is valid exactly when it lies at or above
/// 0xFFFF_0000_0000_0000.
pub proof fn lemma_valid_base_64(base: u64, arch: KernelArch)
    requires
        arch_is_64bit(arch),
    ensures
        valid_kernel_base(base, arch) <==> base >= 0xFFFF_0000_0000_0000,
{
    assert(base >= 0xFFFF_0000_0000_0000 ==> (base >> 48u64) == 0xFFFF) by (bit_vector);
}

// ------------------------------------------------------------------
// Token index
// ------------------------------------------------------------------

/// Start of token `k` of a token table at `start`: tokens are
/// zero-terminated, and past the end of the data each one takes one byte.
pub open spec fn token_start(d: Seq<u8>, start: int, k: nat) -> int
    decreases k,
{
    if k == 0 {
        start
    } else {
        let c = token_start(d, start, (k - 1) as nat);
        if c >= d.len() {
            c + 1
        } else {
            token_end(d, c) + 1
        }
    }
}

/// Offset of token `k` from the table start.
pub open spec fn token_offset(d: Seq<u8>, start: int, k: int) -> int {
    token_start(d, start, k as nat) - start
}

/// Whether all 256 token offsets fit the 16-bit index.
pub open spec fn token_offsets_fit(d: Seq<u8>, start: int) -> bool {
    forall|k: int| 0 <= k < 256 ==> token_offset(d, start, k) <= 0xFFFF
}

/// Where the search for the index begins: right after the last token.
pub open spec fn index_window_start(d: Seq<u8>, start: int) -> int {
    token_start(d, start, 256)
}

/// Where the search for the index ends: 16 KiB later, or the end of data.
pub open spec fn index_window_end(d: Seq<u8>, start: int) -> int {
    let ws = index_window_start(d, start);
    if ws + 16384 <= d.len() {
        ws + 16384
    } else {
        d.len() as int
    }
}

/// Whether the 256 16-bit entries at `q` (in the given byte order) are the
/// offsets of the tokens of the table at `start`.
pub open spec fn index_matches_at(d: Seq<u8>, q: int, start: int, big_endian: bool) -> bool {
    forall|k: int|
        0 <= k < 256 ==> #[trigger] token_offset(d, start, k) == (if big_endian {
            be16(d, q + 2 * k)
        } else {
            le16(d, q + 2 * k)
        })
}

/// Whether the index may start at `q`: inside the search window.
pub open spec fn in_index_window(d: Seq<u8>, q: int, start: int) -> bool {
    index_window_start(d, start) <= q && q + 512 <= index_window_end(d, start)
}

/// Whether `q` is the first position of the window where the index (in the
/// given byte order) matches.
pub open spec fn is_first_index(d: Seq<u8>, q: int, start: int, big_endian: bool) -> bool {
    &&& in_index_window(d, q, start)
    &&& index_matches_at(d, q, start, big_endian)
    &&& forall|p: int|
        index_window_start(d, start) <= p < q ==> !index_matches_at(d, p, start, big_endian)
}

/// Whether the index (in the given byte order) matches anywhere in the
/// window.
pub open spec fn has_index(d: Seq<u8>, start: int, big_endian: bool) -> bool {
    exists|q: int| in_index_window(d, q, start) && index_matches_at(d, q, start, big_endian)
}

/// Whether a token table at `start` has a findable index: offsets fit,
/// the window starts inside the data, and a little- or big-endian index
/// matches in it.
pub open spec fn index_found(d: Seq<u8>, start: int) -> bool {
    &&& token_offsets_fit(d, start)
    &&& index_window_start(d, start) <= d.len()
    &&& (has_index(d, start, false) || has_index(d, start, true))
}

/// The index of the token table at `start`, and whether it is big-endian:
/// the first little-endian match, else the first big-endian one.
pub open spec fn found_index(d: Seq<u8>, start: int) -> (int, bool) {
    if has_index(d, start, false) {
        (choose|q: int| is_first_index(d, q, start, false), false)
    } else {
        (choose|q: int| is_first_index(d, q, start, true), true)
    }
}

/// The first match is unique.
pub proof fn lemma_first_index_unique(d: Seq<u8>, q1: int, q2: int, start: int, big_endian: bool)
    requires
        is_first_index(d, q1, start, big_endian),
        is_first_index(d, q2, start, big_endian),
    ensures
        q1 == q2,
{
    if q1 < q2 {
        assert(!index_matches_at(d, q1, start, big_endian));
    } else if q2 < q1 {
        assert(!index_matches_at(d, q2, start, big_endian));
    }
}

/// Whether the 256 entries at `q` match `offsets` in the given byte order.
fn index_matches(data: &[u8], q: usize, offsets: &Vec<u16>, big_endian: bool) -> (r: bool)
    requires
        offsets@.len() == 256,
        q + 512 <= data.len(),
    ensures
        r == forall|k: int|
            0 <= k < 256 ==> offsets@[k] == (if big_endian {
                be16(data@, q + 2 * k)
            } else {
                le16(data@, q + 2 * k)
            }),
{
    let mut k: usize = 0;
    while k < 256
        invariant
            offsets@.len() == 256,
            q + 512 <= data.len(),
            k <= 256,
            forall|j: int|
                0 <= j < k ==> offsets@[j] == (if big_endian {
                    be16(data@, q + 2 * j)
                } else {
                    le16(data@, q + 2 * j)
                }),
        decreases 256 - k,
    {
        let lo = data[q + 2 * k] as u16;
        let hi = data[q + 2 * k + 1] as u16;
        let v = if big_endian {
            lo * 256 + hi
        } else {
            hi * 256 + lo
        };
        if v != offsets[k] {
            return false;
        }
        k = k + 1;
    }
    true
}

/// The first position in `[ws, we - 512]` where the index matches.
fn first_index_in_window(
    data: &[u8],
    ws: usize,
    we: usize,
    offsets: &Vec<u16>,
    big_endian: bool,
    Ghost(start): Ghost<int>,
) -> (r: Option<usize>)
    requires
        offsets@.len() == 256,
        forall|k: int| 0 <= k < 256 ==> offsets@[k] == token_offset(data@, start, k),
        ws == index_window_start(data@, start),
        we == index_window_end(data@, start),
        ws <= data@.len(),
    ensures
        match r {
            Some(q) => is_first_index(data@, q as int, start, big_endian),
            None => !has_index(data@, start, big_endian),
        },
{
    if we < ws || we - ws < 512 {
        assert forall|q: int| !(in_index_window(data@, q, start) && index_matches_at(data@, q, start, big_endian)) by {}
        return None;
    }
    let mut q = ws;
    while q <= we && we - q >= 512
        invariant
            offsets@.len() == 256,
            forall|k: int| 0 <= k < 256 ==> offsets@[k] == token_offset(data@, start, k),
            ws == index_window_start(data@, start),
            we == index_window_end(data@, start),
            we <= data.len(),
            ws <= q,
            forall|p: int| ws <= p < q ==> !index_matches_at(data@, p, start, big_endian),
        decreases we - q,
    {
        let m = index_matches(data, q, offsets, big_endian);
        if m {
            assert forall|k: int| 0 <= k < 256 implies #[trigger] token_offset(data@, start, k) == (
            if big_endian {
                be16(data@, q + 2 * k)
            } else {
                le16(data@, q + 2 * k)
            }) by {
                assert(offsets@[k] == token_offset(data@, start, k));
            }
            return Some(q);
        } else {
            assert(!index_matches_at(data@, q as int, start, big_endian)) by {
                let k = choose|k: int|
                    0 <= k < 256 && !(offsets@[k] == (if big_endian {
                        be16(data@, q + 2 * k)
                    } else {
                        le16(data@, q + 2 * k)
                    }));
                assert(token_offset(data@, start, k) == offsets@[k]);
            }
        }
        q = q + 1;
    }
    None
}

/// Find the token index of the token table at `token_table_offset`, and
/// its byte order.
///
/// The 256 token offsets are computed from the table; the index is the
/// first place within 16 KiB after the table where they appear as
/// little-endian 16-bit values, or else as big-endian ones. Fails when an
/// offset does not fit 16 bits, the table runs past the data, or no place
/// matches.
pub fn find_token_index_and_endianness(data: &[u8], token_table_offset: usize) -> (r: Result<
    (usize, bool),
    Error,
>)
    requires
        buffer_len_ok(data@.len() as int),
        token_table_offset <= data@.len(),
    ensures
        match r {
            Ok((q, be)) => index_found(data@, token_table_offset as int) && found_index(
                data@,
                token_table_offset as int,
            ) == (q as int, be),
            Err(e) => !index_found(data@, token_table_offset as int) && e is KallsymsNotFound
                && e->KallsymsNotFound_0@ == kallsyms_error_text(KallsymsError::TokenIndexNotFound),
        },
{
    let ghost d = data@;
    let ghost start = token_table_offset as int;
    let mut offsets: Vec<u16> = Vec::new();
    let mut curr = token_table_offset;
    let mut k: usize = 0;
    while k < 256
        invariant
            d == data@,
            start == token_table_offset,
            buffer_len_ok(d.len() as int),
            start <= d.len(),
            k <= 256,
            curr as int == token_start(d, start, k as nat),
            token_table_offset <= curr <= d.len() + k,
            offsets@.len() == k,
            forall|j: int| 0 <= j < k ==> offsets@[j] == token_offset(d, start, j),
        decreases 256 - k,
    {
        if curr - token_table_offset > 0xFFFF {
            assert(token_offset(d, start, k as int) > 0xFFFF);
            return Err(KallsymsError::TokenIndexNotFound.into_error());
        }
        offsets.push((curr - token_table_offset) as u16);
        let ghost c0 = curr;
        if curr < data.len() {
            while curr < data.len() && data[curr] != 0
                invariant
                    c0 <= curr <= data@.len(),
                    c0 < data@.len(),
                    token_end(data@, c0 as int) == token_end(data@, curr as int),
                decreases data.len() - curr,
            {
                curr = curr + 1;
            }
        }
        curr = curr + 1;
        k = k + 1;
        assert(curr as int == token_start(d, start, k as nat));
    }
    if curr > data.len() {
        return Err(KallsymsError::TokenIndexNotFound.into_error());
    }
    let window_start = curr;
    let window_end = if data.len() - curr >= 16384 {
        curr + 16384
    } else {
        data.len()
    };
    match first_index_in_window(data, window_start, window_end, &offsets, false, Ghost(start)) {
        Some(p) => {
            proof {
                lemma_first_index_exists(d, p as int, start, false);
            }
            return Ok((p, false));
        },
        None => {},
    }
    match first_index_in_window(data, window_start, window_end, &offsets, true, Ghost(start)) {
        Some(p) => {
            proof {
                lemma_first_index_exists(d, p as int, start, true);
            }
            Ok((p, true))
        },
        None => Err(KallsymsError::TokenIndexNotFound.into_error()),
    }
}

/// A first match is what `found_index` chooses.
proof fn lemma_first_index_exists(d: Seq<u8>, q: int, start: int, big_endian: bool)
    requires
        is_first_index(d, q, start, big_endian),
    ensures
        has_index(d, start, big_endian),
        (choose|p: int| is_first_index(d, p, start, big_endian)) == q,
{
    let p = choose|p: int| is_first_index(d, p, start, big_endian);
    lemma_first_index_unique(d, p, q, start, big_endian);
}

// ------------------------------------------------------------------
// Token table anchors
// ------------------------------------------------------------------

/// Whether the tokens "0" to "9" (each zero-terminated) start at `p`.
pub open spec fn digit_tokens_at(d: Seq<u8>, p: int) -> bool {
    0 <= p && p + 20 <= d.len() && forall|j: int|
        0 <= j < 10 ==> #[trigger] d[p + 2 * j] == 48 + j && d[p + 2 * j + 1] == 0
}

/// Whether the bytes `pat` occur at `at`.
pub open spec fn bytes_at(d: Seq<u8>, at: int, pat: Seq<u8>) -> bool {
    at + pat.len() <= d.len() && d.subrange(at, at + pat.len()) == pat
}

/// What after the digit tokens marks a false match: `":\0"`, `"\0\0"`,
/// `"\0\x01"`, `"\0\x02"` or `"ASCII\0"`.
pub open spec fn avoided_after(d: Seq<u8>, at: int) -> bool {
    ||| bytes_at(d, at, seq![58u8, 0u8])
    ||| bytes_at(d, at, seq![0u8, 0u8])
    ||| bytes_at(d, at, seq![0u8, 1u8])
    ||| bytes_at(d, at, seq![0u8, 2u8])
    ||| bytes_at(d, at, seq![65u8, 83u8, 67u8, 73u8, 73u8, 0u8])
}

/// Walking left from `p` over non-zero bytes, at most 64 of them.
pub open spec fn walk_left(d: Seq<u8>, p: int, len: int) -> Option<int>
    decreases p,
{
    if p > 0 && d[p - 1] != 0 {
        if len + 1 > 64 {
            None
        } else {
            walk_left(d, p - 1, len + 1)
        }
    } else {
        Some(p)
    }
}

/// The start of the token before the one at `pos`.
pub open spec fn token_before(d: Seq<u8>, pos: int) -> Option<int> {
    if pos <= 0 {
        None
    } else {
        walk_left(d, pos - 1, 0)
    }
}

/// The start of the token `n` tokens before the one at `pos`.
pub open spec fn tokens_before(d: Seq<u8>, pos: int, n: nat) -> Option<int>
    decreases n,
{
    if n == 0 {
        Some(pos)
    } else {
        match tokens_before(d, pos, (n - 1) as nat) {
            Some(p) => token_before(d, p),
            None => None,
        }
    }
}

/// Whether `b` is an ASCII letter or digit.
pub open spec fn ascii_alnum(b: u8) -> bool {
    (48 <= b <= 57) || (65 <= b <= 90) || (97 <= b <= 122)
}

/// Whether position `p` gives a token table candidate: digit tokens that
/// are not followed by an avoided pattern and preceded by 48 tokens.
pub open spec fn is_anchor(d: Seq<u8>, p: int) -> bool {
    digit_tokens_at(d, p) && !avoided_after(d, p + 20) && tokens_before(d, p, 48) is Some
}

/// Whether the candidate at `p` is also followed by a letter or digit.
pub open spec fn is_ascii_anchor(d: Seq<u8>, p: int) -> bool {
    is_anchor(d, p) && p + 20 < d.len() && ascii_alnum(d[p + 20])
}

/// Table starts of the candidates at positions below `n`, in order.
pub open spec fn anchor_tables(d: Seq<u8>, n: int) -> Seq<int>
    decreases n,
{
    if n <= 0 {
        Seq::empty()
    } else {
        let pre = anchor_tables(d, n - 1);
        if is_anchor(d, n - 1) {
            pre.push(tokens_before(d, n - 1, 48)->0)
        } else {
            pre
        }
    }
}

/// Table starts of the letter-or-digit-followed candidates below `n`.
pub open spec fn ascii_anchor_tables(d: Seq<u8>, n: int) -> Seq<int>
    decreases n,
{
    if n <= 0 {
        Seq::empty()
    } else {
        let pre = ascii_anchor_tables(d, n - 1);
        if is_ascii_anchor(d, n - 1) {
            pre.push(tokens_before(d, n - 1, 48)->0)
        } else {
            pre
        }
    }
}

/// The token table candidates tried, in order: the one letter-or-digit
/// followed candidate if there is exactly one, otherwise all candidates.
pub open spec fn table_candidates(d: Seq<u8>) -> Seq<int> {
    let n = d.len() as int;
    if ascii_anchor_tables(d, n).len() == 1 {
        ascii_anchor_tables(d, n)
    } else {
        anchor_tables(d, n)
    }
}

/// The first candidate whose index is found.
pub open spec fn first_indexed_table(d: Seq<u8>, cands: Seq<int>) -> Option<int>
    decreases cands.len(),
{
    if cands.len() == 0 {
        None
    } else if index_found(d, cands[0]) {
        Some(cands[0])
    } else {
        first_indexed_table(d, cands.drop_first())
    }
}

/// The token table and its index: the first candidate whose index is
/// found, with that index and byte order.
pub open spec fn token_anchors(d: Seq<u8>) -> Option<(int, int, bool)> {
    match first_indexed_table(d, table_candidates(d)) {
        Some(t) => Some((t, found_index(d, t).0, found_index(d, t).1)),
        None => None,
    }
}

/// Walks left from `p` over non-zero bytes (at most 64).
fn walk_left_exec(data: &[u8], p: usize) -> (r: Option<usize>)
    requires
        p <= data@.len(),
    ensures
        match r {
            Some(q) => walk_left(data@, p as int, 0) == Some(q as int) && q <= p,
            None => walk_left(data@, p as int, 0) is None,
        },
{
    let mut table_start = p;
    let mut len: usize = 0;
    while table_start > 0 && data[table_start - 1] != 0
        invariant
            table_start <= p <= data@.len(),
            len <= 64,
            walk_left(data@, p as int, 0) == walk_left(data@, table_start as int, len as int),
        decreases table_start,
    {
        if len + 1 > 64 {
            return None;
        }
        table_start = table_start - 1;
        len = len + 1;
    }
    Some(table_start)
}

/// The start of the table 48 tokens before the digit tokens at `pos`.
fn backtrack_table(data: &[u8], pos: usize) -> (r: Option<usize>)
    requires
        pos <= data@.len(),
    ensures
        match r {
            Some(q) => tokens_before(data@, pos as int, 48) == Some(q as int) && q <= pos,
            None => tokens_before(data@, pos as int, 48) is None,
        },
{
    let mut table_start = pos;
    let mut n: usize = 0;
    while n < 48
        invariant
            n <= 48,
            table_start <= pos <= data@.len(),
            tokens_before(data@, pos as int, n as nat) == Some(table_start as int),
        decreases 48 - n,
    {
        if table_start == 0 {
            proof {
                assert(tokens_before(data@, pos as int, (n + 1) as nat) is None);
                lemma_tokens_before_stuck(data@, pos as int, (n + 1) as nat, 48);
            }
            return None;
        }
        match walk_left_exec(data, table_start - 1) {
            Some(q) => {
                table_start = q;
            },
            None => {
                proof {
                    lemma_tokens_before_stuck(data@, pos as int, (n + 1) as nat, 48);
                }
                return None;
            },
        }
        n = n + 1;
    }
    Some(table_start)
}

/// Once the walk back fails it stays failed.
proof fn lemma_tokens_before_stuck(d: Seq<u8>, pos: int, k: nat, n: nat)
    requires
        k <= n,
        k > 0 ==> tokens_before(d, pos, k) is None,
        k == 0 ==> false,
    ensures
        tokens_before(d, pos, n) is None,
    decreases n - k,
{
    if k < n {
        lemma_tokens_before_stuck(d, pos, k + 1, n);
    }
}

/// Whether the digit tokens start at `p`.
fn digit_tokens_exec(data: &[u8], p: usize) -> (r: bool)
    requires
        p + 20 <= data.len(),
    ensures
        r == digit_tokens_at(data@, p as int),
{
    let mut j: usize = 0;
    while j < 10
        invariant
            p + 20 <= data.len(),
            j <= 10,
            forall|i: int| 0 <= i < j ==> #[trigger] data@[p + 2 * i] == 48 + i && data@[p + 2 * i + 1] == 0,
        decreases 10 - j,
    {
        if data[p + 2 * j] != 48 + j as u8 || data[p + 2 * j + 1] != 0 {
            return false;
        }
        j = j + 1;
    }
    true
}

/// Whether `pat` occurs at `at`.
fn bytes_at_exec(data: &[u8], at: usize, pat: &[u8]) -> (r: bool)
    ensures
        r == bytes_at(data@, at as int, pat@),
{
    if pat.len() > data.len() || at > data.len() - pat.len() {
        return false;
    }
    let mut j: usize = 0;
    while j < pat.len()
        invariant
            at + pat@.len() <= data.len(),
            j <= pat@.len(),
            forall|i: int| 0 <= i < j ==> data@[at + i] == pat@[i],
        decreases pat.len() - j,
    {
        if data[at + j] != pat[j] {
            assert(data@.subrange(at as int, at + pat@.len())[j as int] != pat@[j as int]);
            return false;
        }
        j = j + 1;
    }
    assert(data@.subrange(at as int, at + pat@.len()) =~= pat@);
    true
}

/// Whether an avoided pattern follows at `at`.
fn avoided_after_exec(data: &[u8], at: usize) -> (r: bool)
    ensures
        r == avoided_after(data@, at as int),
{
    let p1: [u8; 2] = [58, 0];
    let p2: [u8; 2] = [0, 0];
    let p3: [u8; 2] = [0, 1];
    let p4: [u8; 2] = [0, 2];
    let p5: [u8; 6] = [65, 83, 67, 73, 73, 0];
    assert(p1@ =~= seq![58u8, 0u8]);
    assert(p2@ =~= seq![0u8, 0u8]);
    assert(p3@ =~= seq![0u8, 1u8]);
    assert(p4@ =~= seq![0u8, 2u8]);
    assert(p5@ =~= seq![65u8, 83u8, 67u8, 73u8, 73u8, 0u8]);
    bytes_at_exec(data, at, &p1) || bytes_at_exec(data, at, &p2) || bytes_at_exec(data, at, &p3)
        || bytes_at_exec(data, at, &p4) || bytes_at_exec(data, at, &p5)
}

/// Find the token table and its index, with the index's byte order.
///
/// Every place where the tokens "0" to "9" appear (not followed by an
/// avoided pattern) gives a candidate table start 48 tokens earlier. If
/// exactly one candidate is followed by a letter or digit it alone is
/// tried; otherwise all are, in order. The first candidate whose index is
/// found wins.
pub fn find_token_anchors(data: &[u8]) -> (r: Result<(usize, usize, bool), Error>)
    requires
        buffer_len_ok(data@.len() as int),
    ensures
        match r {
            Ok((t, i, be)) => token_anchors(data@) == Some((t as int, i as int, be)) && t
                <= data@.len(),
            Err(e) => token_anchors(data@) is None && e is KallsymsNotFound
                && e->KallsymsNotFound_0@ == kallsyms_error_text(KallsymsError::TokenTableNotFound),
        },
{
    let ghost d = data@;
    let mut candidates: Vec<usize> = Vec::new();
    let mut ascii_candidates: Vec<usize> = Vec::new();
    let mut p: usize = 0;
    while p < data.len()
        invariant
            d == data@,
            p <= data@.len(),
            candidates@.map_values(|x: usize| x as int) == anchor_tables(d, p as int),
            ascii_candidates@.map_values(|x: usize| x as int) == ascii_anchor_tables(d, p as int),
            forall|k: int| 0 <= k < candidates@.len() ==> candidates@[k] <= data@.len(),
            forall|k: int| 0 <= k < ascii_candidates@.len() ==> ascii_candidates@[k] <= data@.len(),
        decreases data.len() - p,
    {
        let ghost old_c = candidates@;
        let ghost old_a = ascii_candidates@;
        let hit = if data.len() >= 20 && p <= data.len() - 20 && digit_tokens_exec(data, p)
            && !avoided_after_exec(data, p + 20) {
            backtrack_table(data, p)
        } else {
            None
        };
        proof {
            if !(data.len() >= 20 && p <= data.len() - 20) {
                assert(!digit_tokens_at(d, p as int));
            }
        }
        match hit {
            Some(table_start) => {
                assert(is_anchor(d, p as int));
                candidates.push(table_start);
                assert(candidates@.map_values(|x: usize| x as int) =~= old_c.map_values(
                    |x: usize| x as int,
                ).push(table_start as int));
                if p + 20 < data.len() && is_ascii_alnum(data[p + 20]) {
                    ascii_candidates.push(table_start);
                    assert(ascii_candidates@.map_values(|x: usize| x as int) =~= old_a.map_values(
                        |x: usize| x as int,
                    ).push(table_start as int));
                }
            },
            None => {
                assert(!is_anchor(d, p as int));
            },
        }
        assert(candidates@.map_values(|x: usize| x as int) == anchor_tables(d, p + 1));
        assert(ascii_candidates@.map_values(|x: usize| x as int) == ascii_anchor_tables(d, p + 1));
        p = p + 1;
    }
    let final_candidates = if ascii_candidates.len() == 1 {
        ascii_candidates
    } else {
        candidates
    };
    let ghost cands = final_candidates@.map_values(|x: usize| x as int);
    assert(cands == table_candidates(d));
    assert(cands.skip(0) =~= cands);
    let mut i: usize = 0;
    while i < final_candidates.len()
        invariant
            d == data@,
            buffer_len_ok(d.len() as int),
            cands == final_candidates@.map_values(|x: usize| x as int),
            cands == table_candidates(d),
            i <= final_candidates@.len(),
            forall|k: int| 0 <= k < final_candidates@.len() ==> final_candidates@[k] <= data@.len(),
            first_indexed_table(d, cands) == first_indexed_table(d, cands.skip(i as int)),
        decreases final_candidates.len() - i,
    {
        let table_start = final_candidates[i];
        assert(cands.skip(i as int)[0] == table_start);
        assert(cands.skip(i as int).drop_first() =~= cands.skip(i + 1));
        match find_token_index_and_endianness(data, table_start) {
            Ok((index_offset, be)) => {
                return Ok((table_start, index_offset, be));
            },
            Err(_) => {},
        }
        i = i + 1;
    }
    assert(cands.skip(i as int) =~= Seq::<int>::empty());
    Err(KallsymsError::TokenTableNotFound.into_error())
}

/// Whether `b` is an ASCII letter or digit.
fn is_ascii_alnum(b: u8) -> (r: bool)
    ensures
        r == ascii_alnum(b),
{
    (48 <= b && b <= 57) || (65 <= b && b <= 90) || (97 <= b && b <= 122)
}

// ------------------------------------------------------------------
// Markers
// ------------------------------------------------------------------

/// The unsigned value of `es` bytes (8, 4 or 2) at `off`.
pub open spec fn elem_at(d: Seq<u8>, off: int, es: int, big_endian: bool) -> u64 {
    if es == 8 {
        u64_at(d, off, big_endian)
    } else if es == 4 {
        u32_at(d, off, big_endian) as u64
    } else {
        u16_at(d, off, big_endian) as u64
    }
}

/// Reads the `es`-byte value at `off`, if it fits.
fn read_elem(data: &[u8], off: usize, es: usize, big_endian: bool) -> (r: Option<u64>)
    requires
        es == 8 || es == 4 || es == 2,
    ensures
        r == (if off + es <= data@.len() {
            Some(elem_at(data@, off as int, es as int, big_endian))
        } else {
            None::<u64>
        }),
{
    if es == 8 {
        read_u64(data, off, !big_endian)
    } else if es == 4 {
        match read_u32(data, off, !big_endian) {
            Some(v) => Some(v as u64),
            None => None,
        }
    } else {
        match read_u16(data, off, !big_endian) {
            Some(v) => Some(v as u64),
            None => None,
        }
    }
}

/// Whether the `es` bytes at `q` are all zero.
pub open spec fn zero_window(d: Seq<u8>, q: int, es: int) -> bool {
    forall|j: int| 0 <= j < es ==> #[trigger] d[q + j] == 0
}

/// The highest `q' <= q` with a zero window of `es` bytes.
pub open spec fn zero_window_at_or_below(d: Seq<u8>, q: int, es: int) -> Option<int>
    decreases q + 1,
{
    if q < 0 {
        None
    } else if zero_window(d, q, es) {
        Some(q)
    } else {
        zero_window_at_or_below(d, q - 1, es)
    }
}

/// A zero window found at or below `q` is at or below `q`.
pub proof fn lemma_zero_window_below(d: Seq<u8>, q: int, es: int)
    ensures
        zero_window_at_or_below(d, q, es) matches Some(x) ==> 0 <= x <= q,
    decreases q + 1,
{
    if q >= 0 && !zero_window(d, q, es) {
        lemma_zero_window_below(d, q - 1, es);
    }
}

/// How many markers the first check looks at: up to 4 that fit.
pub open spec fn verify_count(len: int, q: int, es: int) -> int {
    let fit = (len - q) / es;
    if fit < 4 {
        fit
    } else {
        4
    }
}

/// The last value of markers `1..k` at `q`, if each grows by 0x200 to
/// 0x4000 over the one before (marker 0 counting as 0).
pub open spec fn checked_markers(d: Seq<u8>, q: int, es: int, big_endian: bool, k: int) -> Option<u64>
    decreases k,
{
    if k <= 1 {
        Some(0)
    } else {
        match checked_markers(d, q, es, big_endian, k - 1) {
            Some(l) => {
                let v = elem_at(d, q + (k - 1) * es, es, big_endian);
                if l + 0x200 <= v <= l + 0x4000 {
                    Some(v)
                } else {
                    None
                }
            },
            None => None,
        }
    }
}

/// Counting further markers from `cur` while each grows by at most 0x4000:
/// the final count and last value.
pub open spec fn extend_markers(
    d: Seq<u8>,
    es: int,
    big_endian: bool,
    cur: int,
    last: u64,
    count: int,
) -> (int, u64)
    decreases d.len() - cur,
{
    if es <= 0 || cur + es > d.len() {
        (count, last)
    } else {
        let v = elem_at(d, cur, es, big_endian);
        if v <= last || v > last + 0x4000 {
            (count, last)
        } else {
            extend_markers(d, es, big_endian, cur + es, v, count + 1)
        }
    }
}

/// Whether the zero window at `q` starts a markers table: aligned, room
/// for at least two markers, and the first ones growing as expected.
pub open spec fn markers_start_ok(d: Seq<u8>, q: int, es: int, big_endian: bool) -> bool {
    q % es == 0 && verify_count(d.len() as int, q, es) >= 2 && checked_markers(
        d,
        q,
        es,
        big_endian,
        verify_count(d.len() as int, q, es),
    ) is Some
}

/// Searching down from `pos` for a markers table of `es`-byte entries:
/// its start, the number of markers and the last marker.
pub open spec fn scan_markers(d: Seq<u8>, es: int, big_endian: bool, pos: int) -> Option<
    (int, int, u64),
>
    decreases pos,
{
    if pos < es || es <= 0 {
        None
    } else {
        match zero_window_at_or_below(d, pos - es, es) {
            None => None,
            Some(q) => if markers_start_ok(d, q, es, big_endian) {
                let vc = verify_count(d.len() as int, q, es);
                let (c, l) = extend_markers(
                    d,
                    es,
                    big_endian,
                    q + vc * es,
                    checked_markers(d, q, es, big_endian, vc)->0,
                    vc,
                );
                Some((q, c, l))
            } else if q > 0 {
                proof {
                    lemma_zero_window_below(d, pos - es, es);
                }
                scan_markers(d, es, big_endian, q - 1)
            } else {
                None
            },
        }
    }
}

/// The markers table before the token table: start, entry size, count
/// and last value, trying 8-, 4- then 2-byte entries.
pub open spec fn markers_found(d: Seq<u8>, token_table_offset: int, big_endian: bool) -> Option<
    (int, int, int, u64),
> {
    match scan_markers(d, 8, big_endian, token_table_offset) {
        Some((q, c, l)) => Some((q, 8, c, l)),
        None => match scan_markers(d, 4, big_endian, token_table_offset) {
            Some((q, c, l)) => Some((q, 4, c, l)),
            None => match scan_markers(d, 2, big_endian, token_table_offset) {
                Some((q, c, l)) => Some((q, 2, c, l)),
                None => None,
            },
        },
    }
}

/// The highest zero window at or below `q`.
fn zero_window_below_exec(data: &[u8], q: usize, es: usize) -> (r: Option<usize>)
    requires
        q + es <= data.len(),
        es == 8 || es == 4 || es == 2,
    ensures
        match r {
            Some(x) => zero_window_at_or_below(data@, q as int, es as int) == Some(x as int) && x <= q,
            None => zero_window_at_or_below(data@, q as int, es as int) is None,
        },
{
    let mut x = q;
    loop
        invariant
            x <= q,
            q + es <= data.len(),
            zero_window_at_or_below(data@, q as int, es as int) == zero_window_at_or_below(
                data@,
                x as int,
                es as int,
            ),
        decreases x,
    {
        let mut j: usize = 0;
        let mut zero = true;
        while j < es
            invariant
                x + es <= data.len(),
                j <= es,
                zero == forall|i: int| 0 <= i < j ==> #[trigger] data@[x + i] == 0,
            decreases es - j,
        {
            if data[x + j] != 0 {
                zero = false;
            }
            j = j + 1;
        }
        assert(zero == zero_window(data@, x as int, es as int));
        if zero {
            return Some(x);
        }
        if x == 0 {
            return None;
        }
        x = x - 1;
    }
}

/// The last value of the first `vc` markers at `q` if they grow as
/// expected.
fn check_markers_exec(data: &[u8], q: usize, es: usize, big_endian: bool, vc: usize) -> (r: Option<u64>)
    requires
        es == 8 || es == 4 || es == 2,
        q + vc * es <= data.len(),
        vc <= 4,
    ensures
        r == checked_markers(data@, q as int, es as int, big_endian, vc as int),
{
    let mut last: u64 = 0;
    if vc <= 1 {
        return Some(0);
    }
    let mut i: usize = 1;
    let mut off: usize = q + es;
    while i < vc
        invariant
            es == 8 || es == 4 || es == 2,
            q + vc * es <= data.len(),
            1 <= i <= vc <= 4,
            off == q + i * es,
            checked_markers(data@, q as int, es as int, big_endian, i as int) == Some(last),
            last <= (i - 1) * 0x4000,
        decreases vc - i,
    {
        assert(off + es <= q + vc * es) by (nonlinear_arith)
            requires
                i < vc,
                off == q + i * es,
                es > 0,
        ;
        let val = match read_elem(data, off, es, big_endian) {
            Some(v) => v,
            None => 0,
        };
        if val <= last || val < last + 0x200 || val > last + 0x4000 {
            proof {
                lemma_checked_markers_stuck(data@, q as int, es as int, big_endian, (i + 1) as int, vc as int);
            }
            return None;
        }
        last = val;
        i = i + 1;
        off = off + es;
    }
    Some(last)
}

/// Once a check fails it stays failed.
proof fn lemma_checked_markers_stuck(d: Seq<u8>, q: int, es: int, be: bool, k: int, n: int)
    requires
        1 < k <= n,
        checked_markers(d, q, es, be, k) is None,
    ensures
        checked_markers(d, q, es, be, n) is None,
    decreases n - k,
{
    if k < n {
        lemma_checked_markers_stuck(d, q, es, be, k + 1, n);
    }
}

/// Counts the markers that follow while each grows by at most 0x4000.
fn extend_markers_exec(
    data: &[u8],
    es: usize,
    big_endian: bool,
    cur: usize,
    last: u64,
    count: usize,
) -> (r: (usize, u64))
    requires
        es == 8 || es == 4 || es == 2,
        cur <= data@.len(),
        count <= cur,
    ensures
        (r.0 as int, r.1) == extend_markers(data@, es as int, big_endian, cur as int, last, count as int),
{
    let mut current_pos = cur;
    let mut last_val = last;
    let mut n = count;
    while current_pos <= data.len() && es <= data.len() - current_pos
        invariant
            es == 8 || es == 4 || es == 2,
            n <= current_pos <= data@.len(),
            extend_markers(data@, es as int, big_endian, cur as int, last, count as int)
                == extend_markers(data@, es as int, big_endian, current_pos as int, last_val, n as int),
        decreases data.len() - current_pos,
    {
        let val = match read_elem(data, current_pos, es, big_endian) {
            Some(v) => v,
            None => 0,
        };
        if val <= last_val || val - last_val > 0x4000 {
            return (n, last_val);
        }
        last_val = val;
        n = n + 1;
        current_pos = current_pos + es;
    }
    (n, last_val)
}

/// Searching down from `pos` for a markers table of `es`-byte entries.
fn scan_markers_exec(data: &[u8], es: usize, big_endian: bool, pos: usize) -> (r: Option<(usize, usize, u64)>)
    requires
        es == 8 || es == 4 || es == 2,
        pos <= data@.len(),
    ensures
        match r {
            Some((q, c, l)) => scan_markers(data@, es as int, big_endian, pos as int) == Some(
                (q as int, c as int, l),
            ) && q <= data@.len(),
            None => scan_markers(data@, es as int, big_endian, pos as int) is None,
        },
{
    let mut p = pos;
    loop
        invariant
            es == 8 || es == 4 || es == 2,
            p <= data@.len(),
            scan_markers(data@, es as int, big_endian, pos as int) == scan_markers(
                data@,
                es as int,
                big_endian,
                p as int,
            ),
        decreases p,
    {
        if p < es {
            return None;
        }
        let q = match zero_window_below_exec(data, p - es, es) {
            Some(q) => q,
            None => {
                return None;
            },
        };
        let fit = (data.len() - q) / es;
        let vc = if fit < 4 {
            fit
        } else {
            4
        };
        assert(vc == verify_count(data@.len() as int, q as int, es as int));
        let mut ok = q % es == 0 && vc >= 2;
        let mut first_last: u64 = 0;
        if ok {
            assert(q + vc * es <= data@.len()) by (nonlinear_arith)
                requires
                    vc <= (data@.len() - q) / (es as int),
                    es > 0,
                    q <= data@.len(),
            ;
            match check_markers_exec(data, q, es, big_endian, vc) {
                Some(l) => {
                    first_last = l;
                },
                None => {
                    ok = false;
                },
            }
        }
        if ok {
            assert(q + vc * es <= data@.len()) by (nonlinear_arith)
                requires
                    vc <= (data@.len() - q) / (es as int),
                    es > 0,
                    q <= data@.len(),
            ;
            assert(vc <= q + vc * es) by (nonlinear_arith)
                requires
                    es > 0,
            ;
            let (c, l) = extend_markers_exec(data, es, big_endian, q + vc * es, first_last, vc);
            return Some((q, c, l));
        }
        if q > 0 {
            p = q - 1;
        } else {
            return None;
        }
    }
}

/// Find the markers table before the token table.
///
/// Markers hold the names-table offset of every 256th symbol: the first is
/// zero and each grows by 0x200 to 0x4000 over the one before. Searching
/// down from the token table for 8-, then 4-, then 2-byte entries, the
/// first aligned zero entry followed by such markers wins; the table runs
/// on while each marker grows by at most 0x4000. Returns the start, the
/// entry size, the number of markers and the last marker.
pub fn find_markers(data: &[u8], token_table_offset: usize, big_endian: bool) -> (r: Result<
    (usize, usize, usize, u64),
    Error,
>)
    requires
        token_table_offset <= data@.len(),
    ensures
        match r {
            Ok((q, es, c, l)) => markers_found(data@, token_table_offset as int, big_endian) == Some(
                (q as int, es as int, c as int, l),
            ) && q <= data@.len(),
            Err(e) => markers_found(data@, token_table_offset as int, big_endian) is None
                && e is KallsymsNotFound && e->KallsymsNotFound_0@ == "Parse error: "@
                + "Could not find kallsyms_markers"@,
        },
{
    match scan_markers_exec(data, 8, big_endian, token_table_offset) {
        Some((q, c, l)) => {
            return Ok((q, 8, c, l));
        },
        None => {},
    }
    match scan_markers_exec(data, 4, big_endian, token_table_offset) {
        Some((q, c, l)) => {
            return Ok((q, 4, c, l));
        },
        None => {},
    }
    match scan_markers_exec(data, 2, big_endian, token_table_offset) {
        Some((q, c, l)) => Ok((q, 2, c, l)),
        None => Err(
            KallsymsError::ParseError(crate::text::text("Could not find kallsyms_markers")).into_error(),
        ),
    }
}

// ------------------------------------------------------------------
// Symbol count and names table
// ------------------------------------------------------------------

/// The byte at `p`, or 0 outside the data.
pub open spec fn byte_or_zero(d: Seq<u8>, p: int) -> int {
    if 0 <= p < d.len() {
        d[p] as int
    } else {
        0
    }
}

/// The least number of symbols `marker_count` markers allow.
pub open spec fn min_symbols(marker_count: int) -> int {
    (if marker_count >= 1 {
        marker_count - 1
    } else {
        0
    }) * 256
}

/// The greatest number of symbols `marker_count` markers allow.
pub open spec fn max_symbols(marker_count: int) -> int {
    marker_count * 256
}

/// Whether a names table may start at `p`: its first length is 1 to 127.
pub open spec fn plausible_names_at(d: Seq<u8>, p: int) -> bool {
    0 < byte_or_zero(d, p) < 128
}

/// The guessed names table start when the last markers block is
/// `block` bytes long.
pub open spec fn names_guess(markers_offset: int, last_marker: u64, block: int) -> int {
    let back = (last_marker as usize) as int + block;
    if markers_offset >= back {
        markers_offset - back
    } else {
        0
    }
}

/// The count size tried at step `j` (8 then 4 bytes).
pub open spec fn step_size(j: int) -> int {
    if j % 2 == 0 {
        8
    } else {
        4
    }
}

/// Whether the first strategy succeeds at step `j`: the count of
/// `step_size(j)` bytes right before the guessed names table (block size
/// `4 * (j / 2)`) lies in the markers' range and the names table looks
/// plausible.
pub open spec fn direct_hit(d: Seq<u8>, mo: int, lmv: u64, mc: int, be: bool, j: int) -> bool {
    let guess = names_guess(mo, lmv, 4 * (j / 2));
    let size = step_size(j);
    let val = elem_at(d, guess - size, size, be);
    &&& guess >= 8
    &&& min_symbols(mc) <= val <= max_symbols(mc)
    &&& plausible_names_at(d, guess)
}

/// The result of the first strategy from step `j` on.
pub open spec fn direct_search(d: Seq<u8>, mo: int, lmv: u64, mc: int, be: bool, j: int) -> Option<
    (int, u64, int),
>
    decreases 2048 - j,
{
    if j >= 2048 || j < 0 {
        None
    } else if direct_hit(d, mo, lmv, mc, be, j) {
        let guess = names_guess(mo, lmv, 4 * (j / 2));
        let size = step_size(j);
        Some((guess - size, elem_at(d, guess - size, size, be), guess))
    } else {
        direct_search(d, mo, lmv, mc, be, j + 1)
    }
}

/// The lower (exclusive) bound of the lenient count range.
pub open spec fn lenient_low(mc: int) -> int {
    if min_symbols(mc) >= 1024 {
        min_symbols(mc) - 1024
    } else {
        0
    }
}

/// The upper (exclusive) bound of the lenient count range.
pub open spec fn lenient_high(mc: int) -> int {
    if max_symbols(mc) + 1024 <= u64::MAX {
        max_symbols(mc) + 1024
    } else {
        u64::MAX as int
    }
}

/// Whether the second strategy succeeds with a count of `size` bytes at
/// `pos`.
pub open spec fn scan_hit(d: Seq<u8>, mc: int, be: bool, pos: int, size: int) -> bool {
    let val = elem_at(d, pos, size, be);
    &&& pos + size <= d.len()
    &&& lenient_low(mc) < val < lenient_high(mc)
    &&& plausible_names_at(d, pos + size)
}

/// The result of the second strategy scanning down from `pos` to `limit`.
pub open spec fn scan_search(d: Seq<u8>, mc: int, be: bool, pos: int, limit: int) -> Option<
    (int, u64, int),
>
    decreases pos + 1,
{
    if pos < limit || pos < 0 {
        None
    } else if scan_hit(d, mc, be, pos, 8) {
        Some((pos, elem_at(d, pos, 8, be), pos + 8))
    } else if scan_hit(d, mc, be, pos, 4) {
        Some((pos, elem_at(d, pos, 4, be), pos + 4))
    } else if pos < 1 {
        None
    } else {
        scan_search(d, mc, be, pos - 1, limit)
    }
}

/// The symbol count and names table: its position, the count, and the
/// names table start. First the count is looked for right before names
/// tables that end at the markers (for last blocks of 0 to 4092 bytes);
/// then byte by byte down to 4 MiB before the markers, with a more lenient
/// count range.
pub open spec fn count_and_names(d: Seq<u8>, mo: int, mc: int, lmv: u64, be: bool) -> Option<
    (int, u64, int),
> {
    match direct_search(d, mo, lmv, mc, be, 0) {
        Some(x) => Some(x),
        None => scan_search(
            d,
            mc,
            be,
            if mo >= 4 {
                mo - 4
            } else {
                0
            },
            if mo >= 0x40_0000 {
                mo - 0x40_0000
            } else {
                0
            },
        ),
    }
}

/// Find the symbol count and the names table before the markers.
///
/// Returns the position of the count, the count, and the names offset.
pub fn find_num_symbols_and_names(
    data: &[u8],
    markers_offset: usize,
    marker_count: usize,
    last_marker_val: u64,
    big_endian: bool,
) -> (r: Result<(usize, usize, usize), Error>)
    ensures
        match r {
            Ok((pos, n, names)) => count_and_names(
                data@,
                markers_offset as int,
                marker_count as int,
                last_marker_val,
                big_endian,
            ) matches Some((p, v, q)) && pos == p && n == v as usize && names == q && pos
                <= data@.len() && names <= data@.len(),
            Err(e) => count_and_names(
                data@,
                markers_offset as int,
                marker_count as int,
                last_marker_val,
                big_endian,
            ) is None && e is KallsymsNotFound && e->KallsymsNotFound_0@ == "Parse error: "@
                + "Could not find num_symbols anchor"@,
        },
{
    let ghost d = data@;
    let min_syms: u128 = (if marker_count >= 1 {
        marker_count - 1
    } else {
        0
    }) as u128 * 256;
    let max_syms: u128 = marker_count as u128 * 256;
    let lmv = last_marker_val as usize;
    // Strategy 1: the names table ends right at the markers.
    let mut j: usize = 0;
    while j < 2048
        invariant
            d == data@,
            min_syms == min_symbols(marker_count as int),
            max_syms == max_symbols(marker_count as int),
            lmv == last_marker_val as usize,
            j <= 2048,
            j % 2 == 0,
            direct_search(d, markers_offset as int, last_marker_val, marker_count as int, big_endian, 0)
                == direct_search(
                d,
                markers_offset as int,
                last_marker_val,
                marker_count as int,
                big_endian,
                j as int,
            ),
        decreases 2048 - j,
    {
        let block = 4 * (j / 2);
        let guess = if lmv <= usize::MAX - block && markers_offset >= lmv + block {
            markers_offset - (lmv + block)
        } else {
            0
        };
        assert(guess == names_guess(markers_offset as int, last_marker_val, block as int));
        let mut t: usize = 0;
        while t < 2
            invariant
                d == data@,
                    min_syms == min_symbols(marker_count as int),
                max_syms == max_symbols(marker_count as int),
                j % 2 == 0,
                j < 2048,
                t <= 2,
                guess == names_guess(markers_offset as int, last_marker_val, 4 * (j / 2)),
                guess <= markers_offset,
                direct_search(d, markers_offset as int, last_marker_val, marker_count as int, big_endian, 0)
                    == direct_search(
                    d,
                    markers_offset as int,
                    last_marker_val,
                    marker_count as int,
                    big_endian,
                    (j + t) as int,
                ),
            decreases 2 - t,
        {
            assert(4 * ((j + t) / 2) == 4 * (j / 2));
            let size: usize = if t == 0 {
                8
            } else {
                4
            };
            assert(size == step_size((j + t) as int));
            if guess >= 8 {
                let pos = guess - size;
                let val = match read_elem(data, pos, size, big_endian) {
                    Some(v) => v,
                    None => 0,
                };
                if min_syms <= val as u128 && val as u128 <= max_syms {
                    let first_len = match read_u8(data, guess) {
                        Some(b) => b,
                        None => 0,
                    };
                    if first_len > 0 && first_len < 128 {
                        assert(direct_hit(
                            d,
                            markers_offset as int,
                            last_marker_val,
                            marker_count as int,
                            big_endian,
                            (j + t) as int,
                        ));
                        return Ok((pos, val as usize, guess));
                    }
                }
            }
            t = t + 1;
        }
        j = j + 2;
    }
    // Strategy 2: scan down byte by byte.
    let scan_limit = if markers_offset >= 0x40_0000 {
        markers_offset - 0x40_0000
    } else {
        0
    };
    let low: u128 = if min_syms >= 1024 {
        min_syms - 1024
    } else {
        0
    };
    let high: u128 = if max_syms + 1024 <= u64::MAX as u128 {
        max_syms + 1024
    } else {
        u64::MAX as u128
    };
    let mut pos = if markers_offset >= 4 {
        markers_offset - 4
    } else {
        0
    };
    let ghost start2 = pos as int;
    assert(direct_search(d, markers_offset as int, last_marker_val, marker_count as int, big_endian, 0)
        is None);
    loop
        invariant
            d == data@,
            direct_search(d, markers_offset as int, last_marker_val, marker_count as int, big_endian, 0)
                is None,
            start2 == (if markers_offset >= 4 {
                markers_offset - 4
            } else {
                0
            }),
            scan_limit == (if markers_offset >= 0x40_0000 {
                markers_offset - 0x40_0000
            } else {
                0
            }),
            low == lenient_low(marker_count as int),
            high == lenient_high(marker_count as int),
            scan_search(d, marker_count as int, big_endian, start2, scan_limit as int) == scan_search(
                d,
                marker_count as int,
                big_endian,
                pos as int,
                scan_limit as int,
            ),
        decreases pos,
    {
        if pos < scan_limit {
            return Err(
                KallsymsError::ParseError(crate::text::text("Could not find num_symbols anchor")).into_error(),
            );
        }
        let mut t: usize = 0;
        #[verifier::loop_isolation(false)]
        while t < 2
            invariant
                d == data@,
                low == lenient_low(marker_count as int),
                high == lenient_high(marker_count as int),
                    t <= 2,
                t >= 1 ==> !scan_hit(d, marker_count as int, big_endian, pos as int, 8),
                t >= 2 ==> !scan_hit(d, marker_count as int, big_endian, pos as int, 4),
            decreases 2 - t,
        {
            let size: usize = if t == 0 {
                8
            } else {
                4
            };
            if pos <= data.len() && size <= data.len() - pos {
                let val = match read_elem(data, pos, size, big_endian) {
                    Some(v) => v,
                    None => 0,
                };
                if val as u128 > low && (val as u128) < high {
                    let names_offset = pos + size;
                    let first_len = match read_u8(data, names_offset) {
                        Some(b) => b,
                        None => 0,
                    };
                    if first_len > 0 && first_len < 128 {
                        assert(scan_hit(d, marker_count as int, big_endian, pos as int, size as int));
                        assert(scan_search(
                            d,
                            marker_count as int,
                            big_endian,
                            pos as int,
                            scan_limit as int,
                        ) == Some((pos as int, val, (pos + size) as int)));
                        return Ok((pos, val as usize, names_offset));
                    }
                }
            }
            t = t + 1;
        }
        if pos < 1 {
            return Err(
                KallsymsError::ParseError(crate::text::text("Could not find num_symbols anchor")).into_error(),
            );
        }
        pos = pos - 1;
    }
}

// ------------------------------------------------------------------
// Relative offsets quality
// ------------------------------------------------------------------

/// Counts gathered from a sample of a relative offsets table.
#[derive(Debug, Clone, Copy, PartialEq, Eq, Structural)]
pub struct OffsetsQuality {
    /// Sampled addresses in kernel space (at or above 0xFFFF_0000_0000_0000).
    pub valid: u64,
    /// Sampled offsets that are negative.
    pub negative: u64,
    /// Consecutive sampled pairs in ascending order.
    pub ascending: u64,
    /// Consecutive sampled pairs.
    pub pairs: u64,
    /// Intended sample size.
    pub samples: u64,
}

/// Numerator of the quality score
/// `0.5 * valid/samples + 0.4 * ascending/pairs + 0.1 * negative/samples`
/// (the middle term is 0 without pairs).
pub open spec fn quality_num(q: OffsetsQuality) -> int {
    if q.pairs > 0 {
        5 * q.valid * q.pairs + 4 * q.ascending * q.samples + q.negative * q.pairs
    } else {
        5 * q.valid + q.negative
    }
}

/// Denominator of the quality score.
pub open spec fn quality_den(q: OffsetsQuality) -> int {
    if q.pairs > 0 {
        10 * q.samples * q.pairs
    } else {
        10 * q.samples
    }
}

/// Whether the counts of a quality are within the sample.
pub open spec fn quality_bounded(q: OffsetsQuality) -> bool {
    &&& 1 <= q.samples <= 1000
    &&& q.valid <= q.samples
    &&& q.negative <= q.samples
    &&& q.ascending <= q.pairs
    &&& q.pairs < q.samples
}

/// Whether quality `a` is at least quality `b`.
pub open spec fn quality_ge(a: OffsetsQuality, b: OffsetsQuality) -> bool {
    quality_num(a) * quality_den(b) >= quality_num(b) * quality_den(a)
}

/// Whether a quality reaches the 20% acceptance threshold.
pub open spec fn quality_acceptable(q: OffsetsQuality) -> bool {
    5 * quality_num(q) >= quality_den(q)
}

/// Number of sampled entries: up to 1000.
pub open spec fn sample_size(n: int) -> int {
    if n < 1000 {
        n
    } else {
        1000
    }
}

/// Distance between sampled entries.
pub open spec fn sample_step(n: int) -> int {
    if n > 1000 {
        n / 1000
    } else {
        1
    }
}

/// The address sample `k` gives: `base` plus the entry's signed offset.
pub open spec fn sample_addr(d: Seq<u8>, pos: int, n: int, base: u64, be: bool, k: int) -> u64 {
    add_signed(base, i32_at(d, pos + k * sample_step(n) * 4, be))
}

/// The signed offset of sample `k`.
pub open spec fn sample_offset(d: Seq<u8>, pos: int, n: int, be: bool, k: int) -> i32 {
    i32_at(d, pos + k * sample_step(n) * 4, be)
}

/// Counts over the first `k` samples: null addresses, negative offsets,
/// kernel-space addresses and ascending pairs.
pub open spec fn sample_counts(d: Seq<u8>, pos: int, n: int, base: u64, be: bool, k: int) -> (
    int,
    int,
    int,
    int,
)
    decreases k,
{
    if k <= 0 {
        (0, 0, 0, 0)
    } else {
        let (z, g, v, a) = sample_counts(d, pos, n, base, be, k - 1);
        let addr = sample_addr(d, pos, n, base, be, k - 1);
        (
            z + if addr == 0 {
                1int
            } else {
                0int
            },
            g + if sample_offset(d, pos, n, be, k - 1) < 0 {
                1int
            } else {
                0int
            },
            v + if addr >= 0xFFFF_0000_0000_0000 {
                1int
            } else {
                0int
            },
            a + if k >= 2 && addr >= sample_addr(d, pos, n, base, be, k - 2) {
                1int
            } else {
                0int
            },
        )
    }
}

/// The quality of the offsets table at `pos` read from `base`: `None` when
/// 20% or more of the sampled addresses are null.
pub open spec fn offsets_quality(d: Seq<u8>, pos: int, n: int, base: u64, be: bool) -> Option<
    OffsetsQuality,
> {
    let s = sample_size(n);
    let (z, g, v, a) = sample_counts(d, pos, n, base, be, s);
    if 5 * z >= s {
        None
    } else {
        Some(
            OffsetsQuality {
                valid: v as u64,
                negative: g as u64,
                ascending: a as u64,
                pairs: (if s >= 1 {
                    s - 1
                } else {
                    0
                }) as u64,
                samples: s as u64,
            },
        )
    }
}

/// The sign test on an offset: its top twelve bits all set, or negative;
/// this is just "negative".
proof fn lemma_negative_mask(offset: i32)
    ensures
        ((offset & (0xFFFu32 << 20u32) as i32) == (0xFFFu32 << 20u32) as i32 || offset < 0) == (
        offset < 0),
{
    assert(((offset & (0xFFFu32 << 20u32) as i32) == (0xFFFu32 << 20u32) as i32) ==> offset < 0)
        by (bit_vector);
}

/// Validate a relative offsets table from a sample of up to 1000 entries.
///
/// Returns `None` for an empty table, or when 20% or more of the sampled
/// addresses are null; otherwise the counts behind the quality score
/// (kernel-space addresses weigh most, then ascending order, then negative
/// offsets), a score between 0 and 1.
#[verifier::rlimit(40)]
fn validate_relative_offsets(
    data: &[u8],
    offsets_pos: usize,
    num_symbols: usize,
    base: u64,
    big_endian: bool,
) -> (r: Option<OffsetsQuality>)
    requires
        offsets_pos + num_symbols * 4 <= data.len(),
    ensures
        r == offsets_quality(data@, offsets_pos as int, num_symbols as int, base, big_endian),
        num_symbols == 0 ==> r is None,
        r matches Some(q) ==> quality_bounded(q) && q.samples >= 1,
{
    if num_symbols == 0 {
        return None;
    }
    let sample = if num_symbols < 1000 {
        num_symbols
    } else {
        1000
    };
    let step = if num_symbols > 1000 {
        num_symbols / 1000
    } else {
        1
    };
    let negative_mask: i32 = (0xFFFu32 << 20u32) as i32;
    let mut null_count: u64 = 0;
    let mut negative_count: u64 = 0;
    let mut valid_count: u64 = 0;
    let mut ascending_pairs: u64 = 0;
    let mut total_pairs: u64 = 0;
    let mut prev_addr: u64 = 0;
    let mut k: usize = 0;
    while k < sample
        invariant
            num_symbols >= 1,
            offsets_pos + num_symbols * 4 <= data.len(),
            sample == sample_size(num_symbols as int),
            step == sample_step(num_symbols as int),
            negative_mask == (0xFFFu32 << 20u32) as i32,
            k <= sample,
            (null_count as int, negative_count as int, valid_count as int, ascending_pairs as int)
                == sample_counts(data@, offsets_pos as int, num_symbols as int, base, big_endian, k as int),
            total_pairs == (if k >= 1 {
                k - 1
            } else {
                0
            }),
            k >= 1 ==> prev_addr == sample_addr(
                data@,
                offsets_pos as int,
                num_symbols as int,
                base,
                big_endian,
                k - 1,
            ),
            null_count <= k,
            negative_count <= k,
            valid_count <= k,
            ascending_pairs <= total_pairs,
        decreases sample - k,
    {
        assert(k * step < num_symbols) by (nonlinear_arith)
            requires
                k < sample,
                sample == sample_size(num_symbols as int),
                step == sample_step(num_symbols as int),
                num_symbols >= 1,
        ;
        let i = k * step;
        let off_pos = offsets_pos + i * 4;
        let offset: i32 = match read_i32(data, off_pos, !big_endian) {
            Some(v) => v,
            None => 0,
        };
        let addr = wrapping_add_signed(base, offset);
        if addr == 0 {
            null_count = null_count + 1;
        }
        proof {
            lemma_negative_mask(offset);
        }
        if (offset & negative_mask) == negative_mask || offset < 0 {
            negative_count = negative_count + 1;
        }
        if addr >= 0xFFFF_0000_0000_0000 {
            valid_count = valid_count + 1;
        }
        if k >= 1 {
            total_pairs = total_pairs + 1;
            if addr >= prev_addr {
                ascending_pairs = ascending_pairs + 1;
            }
        }
        prev_addr = addr;
        k = k + 1;
    }
    if 5 * null_count >= sample as u64 {
        return None;
    }
    Some(
        OffsetsQuality {
            valid: valid_count,
            negative: negative_count,
            ascending: ascending_pairs,
            pairs: total_pairs,
            samples: sample as u64,
        },
    )
}

// ------------------------------------------------------------------
// Addresses table
// ------------------------------------------------------------------

/// `x - k` clipped at 0.
pub open spec fn clip_sub(x: int, k: int) -> int {
    if x >= k {
        x - k
    } else {
        0
    }
}

/// `x` rounded down to a multiple of `m`.
pub open spec fn round_down(x: int, m: int) -> int {
    x - x % m
}

/// The pointer-sized value at `pos` (8 or 4 bytes).
pub open spec fn ptr_at(d: Seq<u8>, pos: int, ptr: int, be: bool) -> u64 {
    if ptr == 8 {
        u64_at(d, pos, be)
    } else {
        u32_at(d, pos, be) as u64
    }
}

/// Whether `a` is a kernel address for pointers of `ptr` bytes.
pub open spec fn kernel_addr(a: u64, ptr: int) -> bool {
    (ptr == 8 && a >= 0xFFFF_0000_0000_0000) || (ptr == 4 && a >= 0x8000_0000)
}

/// Whether an absolute addresses table may start at `pos`: a kernel
/// address followed by three that do not decrease.
pub open spec fn absolute_hit(d: Seq<u8>, pos: int, ptr: int, be: bool) -> bool {
    let a1 = ptr_at(d, pos, ptr, be);
    let a2 = ptr_at(d, pos + ptr, ptr, be);
    let a3 = ptr_at(d, pos + 2 * ptr, ptr, be);
    let a4 = ptr_at(d, pos + 3 * ptr, ptr, be);
    kernel_addr(a1, ptr) && a2 >= a1 && a3 >= a2 && a4 >= a3
}

/// Scanning down from `pos` to `limit` in steps of `ptr` for an absolute
/// addresses table.
pub open spec fn absolute_search(d: Seq<u8>, ptr: int, be: bool, pos: int, limit: int) -> Option<int>
    decreases pos + 1,
{
    if pos < limit || pos < 0 || ptr <= 0 {
        None
    } else if pos + ptr * 4 <= d.len() && absolute_hit(d, pos, ptr, be) {
        Some(pos)
    } else if pos < ptr {
        None
    } else {
        absolute_search(d, ptr, be, pos - ptr, limit)
    }
}

/// Where the absolute search starts: the table's size before the count,
/// pointer-aligned.
pub open spec fn absolute_start(nso: int, n: int, ptr: int) -> int {
    round_down(clip_sub(nso, n * ptr), ptr)
}

/// Where the absolute search ends: 16 KiB further down.
pub open spec fn absolute_limit(nso: int, n: int, ptr: int) -> int {
    clip_sub(nso, n * ptr + 16384)
}

/// A relative-table candidate: offsets position, base, quality.
pub type RelCandidate = (int, u64, OffsetsQuality);

/// The candidate a base at `bp` gives for offsets at `pos`, if any.
#[verifier::opaque]
pub open spec fn base_candidate(
    d: Seq<u8>,
    arch: KernelArch,
    be: bool,
    n: int,
    pos: int,
    bp: int,
) -> Option<RelCandidate> {
    let v = if bp + 8 <= d.len() {
        u64_at(d, bp, be)
    } else {
        0
    };
    if valid_kernel_base(v, arch) {
        match offsets_quality(d, pos, n, v, be) {
            Some(q) => Some((pos, v, q)),
            None => None,
        }
    } else {
        None
    }
}

/// `Some(c)` as a one-element sequence, `None` as the empty one.
pub open spec fn opt_seq(c: Option<RelCandidate>) -> Seq<RelCandidate> {
    match c {
        Some(x) => seq![x],
        None => Seq::empty(),
    }
}

/// Candidates from bases after the offsets: `bp` upwards in steps of 8
/// while a base fits before the count.
pub open spec fn post_gap_candidates(
    d: Seq<u8>,
    arch: KernelArch,
    be: bool,
    n: int,
    pos: int,
    bp: int,
    nso: int,
) -> Seq<RelCandidate>
    decreases nso - bp,
{
    if bp + 8 > nso {
        Seq::empty()
    } else {
        opt_seq(base_candidate(d, arch, be, n, pos, bp)) + post_gap_candidates(
            d,
            arch,
            be,
            n,
            pos,
            bp + 8,
            nso,
        )
    }
}

/// Candidates from bases before the offsets: `bp` downwards in steps of 8
/// to `limit`.
pub open spec fn pre_gap_candidates(
    d: Seq<u8>,
    arch: KernelArch,
    be: bool,
    n: int,
    pos: int,
    bp: int,
    limit: int,
) -> Seq<RelCandidate>
    decreases bp + 1,
{
    if bp < limit || bp < 0 {
        Seq::empty()
    } else {
        opt_seq(base_candidate(d, arch, be, n, pos, bp)) + (if bp < 8 {
            Seq::empty()
        } else {
            pre_gap_candidates(d, arch, be, n, pos, bp - 8, limit)
        })
    }
}

/// Candidates for an offsets table ending at `end`.
#[verifier::opaque]
pub open spec fn end_candidates(
    d: Seq<u8>,
    arch: KernelArch,
    be: bool,
    n: int,
    end: int,
    nso: int,
) -> Seq<RelCandidate> {
    let pos = clip_sub(end, n * 4);
    if pos + n * 4 > d.len() {
        Seq::empty()
    } else {
        post_gap_candidates(d, arch, be, n, pos, round_down(end, 8), nso) + pre_gap_candidates(
            d,
            arch,
            be,
            n,
            pos,
            round_down(clip_sub(pos, 8), 8),
            clip_sub(pos, 128),
        )
    }
}

/// All relative-table candidates, for table ends from `end` down to
/// `min_end` in steps of 4.
pub open spec fn relative_candidates(
    d: Seq<u8>,
    arch: KernelArch,
    be: bool,
    n: int,
    end: int,
    min_end: int,
    nso: int,
) -> Seq<RelCandidate>
    decreases end + 1,
{
    if end < min_end || end < 0 {
        Seq::empty()
    } else {
        end_candidates(d, arch, be, n, end, nso) + (if end < 4 {
            Seq::empty()
        } else {
            relative_candidates(d, arch, be, n, end - 4, min_end, nso)
        })
    }
}

/// Index of the best candidate among the first `k`: the last one of
/// highest quality.
pub open spec fn best_index(c: Seq<RelCandidate>, k: int) -> int
    decreases k,
{
    if k <= 1 {
        0
    } else {
        let b = best_index(c, k - 1);
        if quality_ge(c[k - 1].2, c[b].2) {
            k - 1
        } else {
            b
        }
    }
}

/// The relative table found for `arch`: the best candidate, if its quality
/// reaches 20%.
pub open spec fn relative_found(d: Seq<u8>, nso: int, n: int, arch: KernelArch, be: bool) -> Option<
    (int, u64),
> {
    let c = relative_candidates(d, arch, be, n, nso, clip_sub(nso, 4096), nso);
    if c.len() == 0 {
        None
    } else {
        let b = c[best_index(c, c.len() as int)];
        if quality_acceptable(b.2) {
            Some((b.0, b.1))
        } else {
            None
        }
    }
}

/// The addresses table found when trying `arch`: absolute first, then
/// relative.
pub open spec fn table_for_arch(d: Seq<u8>, nso: int, n: int, arch: KernelArch, be: bool) -> Option<
    (int, Option<u64>),
> {
    let ptr = arch_pointer_size(arch) as int;
    match absolute_search(d, ptr, be, absolute_start(nso, n, ptr), absolute_limit(nso, n, ptr)) {
        Some(p) => Some((p, None)),
        None => match relative_found(d, nso, n, arch, be) {
            Some((p, b)) => Some((p, Some(b))),
            None => None,
        },
    }
}

/// The addresses table: for an unknown architecture AArch64 is tried, then
/// ARM32; otherwise the given one.
pub open spec fn addresses_found(d: Seq<u8>, nso: int, n: int, hint: KernelArch, be: bool) -> Option<
    (int, Option<u64>, KernelArch),
> {
    if hint == KernelArch::Unknown {
        match table_for_arch(d, nso, n, KernelArch::Arm64, be) {
            Some((p, b)) => Some((p, b, KernelArch::Arm64)),
            None => match table_for_arch(d, nso, n, KernelArch::Arm32, be) {
                Some((p, b)) => Some((p, b, KernelArch::Arm32)),
                None => None,
            },
        }
    } else {
        match table_for_arch(d, nso, n, hint, be) {
            Some((p, b)) => Some((p, b, hint)),
            None => None,
        }
    }
}

/// `a * b`, or `usize::MAX` when it does not fit.
fn mul_sat(a: usize, b: usize) -> (r: usize)
    ensures
        r == (if a * b <= usize::MAX {
            (a * b) as usize
        } else {
            usize::MAX
        }),
{
    match a.checked_mul(b) {
        Some(v) => v,
        None => usize::MAX,
    }
}

/// `a + b`, or `usize::MAX` when it does not fit.
fn add_sat(a: usize, b: usize) -> (r: usize)
    ensures
        r == (if a + b <= usize::MAX {
            (a + b) as usize
        } else {
            usize::MAX
        }),
{
    match a.checked_add(b) {
        Some(v) => v,
        None => usize::MAX,
    }
}

/// Reads a pointer-sized value at `pos`, or 0 when it does not fit.
fn read_ptr(data: &[u8], pos: usize, ptr: usize, be: bool) -> (r: u64)
    requires
        ptr == 8 || ptr == 4,
    ensures
        pos + ptr <= data@.len() ==> r == ptr_at(data@, pos as int, ptr as int, be),
{
    if ptr == 8 {
        match read_u64(data, pos, !be) {
            Some(v) => v,
            None => 0,
        }
    } else {
        match read_u32(data, pos, !be) {
            Some(v) => v as u64,
            None => 0,
        }
    }
}

/// Scans down for an absolute addresses table.
#[verifier::spinoff_prover]
#[verifier::rlimit(30)]
fn absolute_search_exec(data: &[u8], ptr: usize, be: bool, start: usize, limit: usize) -> (r: Option<usize>)
    requires
        ptr == 8 || ptr == 4,
    ensures
        match r {
            Some(p) => absolute_search(data@, ptr as int, be, start as int, limit as int) == Some(p as int),
            None => absolute_search(data@, ptr as int, be, start as int, limit as int) is None,
        },
{
    let mut pos = start;
    loop
        invariant
            ptr == 8 || ptr == 4,
            absolute_search(data@, ptr as int, be, start as int, limit as int) == absolute_search(
                data@,
                ptr as int,
                be,
                pos as int,
                limit as int,
            ),
        decreases pos,
    {
        if pos < limit {
            return None;
        }
        if pos <= data.len() && ptr * 4 <= data.len() - pos {
            let a1 = read_ptr(data, pos, ptr, be);
            if (ptr == 8 && a1 >= 0xFFFF_0000_0000_0000) || (ptr == 4 && a1 >= 0x8000_0000) {
                // The next three addresses must not decrease.
                let a2 = read_ptr(data, pos + ptr, ptr, be);
                let a3 = read_ptr(data, pos + 2 * ptr, ptr, be);
                let a4 = read_ptr(data, pos + 3 * ptr, ptr, be);
                if a2 >= a1 && a3 >= a2 && a4 >= a3 {
                    return Some(pos);
                }
            }
        }
        if pos < ptr {
            return None;
        }
        pos = pos - ptr;
    }
}

/// The numerator and denominator of a quality score.
fn quality_parts(q: &OffsetsQuality) -> (r: (u64, u64))
    requires
        quality_bounded(*q),
    ensures
        r.0 == quality_num(*q),
        r.1 == quality_den(*q),
        r.0 <= 10_000_000,
        1 <= r.1 <= 10_000_000,
{
    if q.pairs > 0 {
        assert(5 * q.valid * q.pairs <= 5 * 1000 * 1000) by (nonlinear_arith)
            requires
                q.valid <= 1000,
                q.pairs <= 1000,
        ;
        assert(4 * q.ascending * q.samples <= 4 * 1000 * 1000) by (nonlinear_arith)
            requires
                q.ascending <= 1000,
                q.samples <= 1000,
        ;
        assert(q.negative * q.pairs <= 1000 * 1000) by (nonlinear_arith)
            requires
                q.negative <= 1000,
                q.pairs <= 1000,
        ;
        assert(10 * q.samples * q.pairs <= 10 * 1000 * 1000) by (nonlinear_arith)
            requires
                q.samples <= 1000,
                q.pairs <= 1000,
        ;
        assert(10 * q.samples * q.pairs >= 1) by (nonlinear_arith)
            requires
                q.samples >= 1,
                q.pairs >= 1,
        ;
        (
            5 * q.valid * q.pairs + 4 * q.ascending * q.samples + q.negative * q.pairs,
            10 * q.samples * q.pairs,
        )
    } else {
        (5 * q.valid + q.negative, 10 * q.samples)
    }
}

/// Whether quality `a` is at least quality `b`.
fn quality_at_least(a: &OffsetsQuality, b: &OffsetsQuality) -> (r: bool)
    requires
        quality_bounded(*a),
        quality_bounded(*b),
    ensures
        r == quality_ge(*a, *b),
{
    let (an, ad) = quality_parts(a);
    let (bn, bd) = quality_parts(b);
    assert(an * bd <= 10_000_000 * 10_000_000) by (nonlinear_arith)
        requires
            an <= 10_000_000,
            bd <= 10_000_000,
    ;
    assert(bn * ad <= 10_000_000 * 10_000_000) by (nonlinear_arith)
        requires
            bn <= 10_000_000,
            ad <= 10_000_000,
    ;
    an * bd >= bn * ad
}

/// The spec form of a stored candidate.
pub open spec fn cand_view(c: (usize, u64, OffsetsQuality)) -> RelCandidate {
    (c.0 as int, c.1, c.2)
}

/// The spec form of stored candidates.
pub open spec fn cands_view(c: Seq<(usize, u64, OffsetsQuality)>) -> Seq<RelCandidate> {
    c.map_values(|x: (usize, u64, OffsetsQuality)| cand_view(x))
}

/// The candidate a base at `bp` gives for offsets at `pos`.
fn base_candidate_exec(
    data: &[u8],
    arch: KernelArch,
    be: bool,
    n: usize,
    pos: usize,
    bp: usize,
) -> (r: Option<(usize, u64, OffsetsQuality)>)
    requires
        pos + n * 4 <= data.len(),
    ensures
        match r {
            Some(c) => base_candidate(data@, arch, be, n as int, pos as int, bp as int) == Some(
                cand_view(c),
            ) && quality_bounded(c.2),
            None => base_candidate(data@, arch, be, n as int, pos as int, bp as int) is None,
        },
{
    reveal(base_candidate);
    let base_val = match read_u64(data, bp, !be) {
        Some(v) => v,
        None => 0,
    };
    if is_valid_kernel_base(base_val, arch) {
        match validate_relative_offsets(data, pos, n, base_val, be) {
            Some(q) => Some((pos, base_val, q)),
            None => None,
        }
    } else {
        None
    }
}

/// Appends the candidates from bases after the offsets.
fn post_gap_exec(
    data: &[u8],
    arch: KernelArch,
    be: bool,
    n: usize,
    pos: usize,
    bp: usize,
    nso: usize,
    out: &mut Vec<(usize, u64, OffsetsQuality)>,
)
    requires
        pos + n * 4 <= data.len(),
        forall|k: int| 0 <= k < old(out)@.len() ==> quality_bounded(#[trigger] old(out)@[k].2),
    ensures
        cands_view(final(out)@) == cands_view(old(out)@) + post_gap_candidates(
            data@,
            arch,
            be,
            n as int,
            pos as int,
            bp as int,
            nso as int,
        ),
        forall|k: int| 0 <= k < final(out)@.len() ==> quality_bounded(#[trigger] final(out)@[k].2),
{
    let ghost start = cands_view(out@);
    let mut base_pos = bp;
    while base_pos <= nso && nso - base_pos >= 8
        invariant
            start == cands_view(old(out)@),
            pos + n * 4 <= data.len(),
            forall|k: int| 0 <= k < out@.len() ==> quality_bounded(#[trigger] out@[k].2),
            start + post_gap_candidates(data@, arch, be, n as int, pos as int, bp as int, nso as int)
                == cands_view(out@) + post_gap_candidates(
                data@,
                arch,
                be,
                n as int,
                pos as int,
                base_pos as int,
                nso as int,
            ),
        decreases nso - base_pos,
    {
        let ghost before = cands_view(out@);
        let c = base_candidate_exec(data, arch, be, n, pos, base_pos);
        match c {
            Some(x) => {
                out.push(x);
                assert(cands_view(out@) =~= before.push(cand_view(x)));
            },
            None => {},
        }
        assert(cands_view(out@) =~= before + opt_seq(
            base_candidate(data@, arch, be, n as int, pos as int, base_pos as int),
        ));
        assert(before + post_gap_candidates(
            data@,
            arch,
            be,
            n as int,
            pos as int,
            base_pos as int,
            nso as int,
        ) =~= cands_view(out@) + post_gap_candidates(
            data@,
            arch,
            be,
            n as int,
            pos as int,
            base_pos + 8,
            nso as int,
        ));
        base_pos = base_pos + 8;
    }
    assert(post_gap_candidates(data@, arch, be, n as int, pos as int, base_pos as int, nso as int)
        =~= Seq::<RelCandidate>::empty());
    assert(start + post_gap_candidates(data@, arch, be, n as int, pos as int, bp as int, nso as int)
        =~= cands_view(out@));
}

/// Appends the candidates from bases before the offsets.
fn pre_gap_exec(
    data: &[u8],
    arch: KernelArch,
    be: bool,
    n: usize,
    pos: usize,
    bp: usize,
    limit: usize,
    out: &mut Vec<(usize, u64, OffsetsQuality)>,
)
    requires
        pos + n * 4 <= data.len(),
        forall|k: int| 0 <= k < old(out)@.len() ==> quality_bounded(#[trigger] old(out)@[k].2),
    ensures
        cands_view(final(out)@) == cands_view(old(out)@) + pre_gap_candidates(
            data@,
            arch,
            be,
            n as int,
            pos as int,
            bp as int,
            limit as int,
        ),
        forall|k: int| 0 <= k < final(out)@.len() ==> quality_bounded(#[trigger] final(out)@[k].2),
{
    let ghost start = cands_view(out@);
    let mut base_pos = bp;
    loop
        invariant
            start == cands_view(old(out)@),
            pos + n * 4 <= data.len(),
            forall|k: int| 0 <= k < out@.len() ==> quality_bounded(#[trigger] out@[k].2),
            start + pre_gap_candidates(data@, arch, be, n as int, pos as int, bp as int, limit as int)
                == cands_view(out@) + pre_gap_candidates(
                data@,
                arch,
                be,
                n as int,
                pos as int,
                base_pos as int,
                limit as int,
            ),
        decreases base_pos,
    {
        if base_pos < limit {
            assert(cands_view(out@) + pre_gap_candidates(
                data@,
                arch,
                be,
                n as int,
                pos as int,
                base_pos as int,
                limit as int,
            ) =~= cands_view(out@));
            return ;
        }
        let ghost before = cands_view(out@);
        let c = base_candidate_exec(data, arch, be, n, pos, base_pos);
        match c {
            Some(x) => {
                out.push(x);
                assert(cands_view(out@) =~= before.push(cand_view(x)));
            },
            None => {},
        }
        assert(cands_view(out@) =~= before + opt_seq(
            base_candidate(data@, arch, be, n as int, pos as int, base_pos as int),
        ));
        if base_pos < 8 {
            assert(before + pre_gap_candidates(
                data@,
                arch,
                be,
                n as int,
                pos as int,
                base_pos as int,
                limit as int,
            ) =~= cands_view(out@));
            return ;
        }
        assert(before + pre_gap_candidates(
            data@,
            arch,
            be,
            n as int,
            pos as int,
            base_pos as int,
            limit as int,
        ) =~= cands_view(out@) + pre_gap_candidates(
            data@,
            arch,
            be,
            n as int,
            pos as int,
            base_pos - 8,
            limit as int,
        ));
        base_pos = base_pos - 8;
    }
}

/// Appends the candidates for an offsets table ending at `end`.
fn end_candidates_exec(
    data: &[u8],
    arch: KernelArch,
    be: bool,
    n: usize,
    end: usize,
    nso: usize,
    offsets_size: usize,
    out: &mut Vec<(usize, u64, OffsetsQuality)>,
)
    requires
        buffer_len_ok(data@.len() as int),
        end <= nso,
        offsets_size == (if n * 4 <= usize::MAX {
            (n * 4) as usize
        } else {
            usize::MAX
        }),
        forall|k: int| 0 <= k < old(out)@.len() ==> quality_bounded(#[trigger] old(out)@[k].2),
    ensures
        cands_view(final(out)@) == cands_view(old(out)@) + end_candidates(
            data@,
            arch,
            be,
            n as int,
            end as int,
            nso as int,
        ),
        forall|k: int| 0 <= k < final(out)@.len() ==> quality_bounded(#[trigger] final(out)@[k].2),
{
    let ghost before = cands_view(out@);
    let pos = if end >= offsets_size {
        end - offsets_size
    } else {
        0
    };
    assert(pos == clip_sub(end as int, n * 4));
    if pos <= data.len() && offsets_size <= data.len() - pos {
        let post_start = end - end % 8;
        let pre_start = if pos >= 8 {
            pos - 8
        } else {
            0
        };
        let pre_limit = if pos >= 128 {
            pos - 128
        } else {
            0
        };
        let pre_from = pre_start - pre_start % 8;
        let ghost post = post_gap_candidates(
            data@,
            arch,
            be,
            n as int,
            pos as int,
            post_start as int,
            nso as int,
        );
        let ghost pre = pre_gap_candidates(
            data@,
            arch,
            be,
            n as int,
            pos as int,
            pre_from as int,
            pre_limit as int,
        );
        assert(end_candidates(data@, arch, be, n as int, end as int, nso as int) == post + pre) by {
            reveal(end_candidates);
        }
        post_gap_exec(data, arch, be, n, pos, post_start, nso, out);
        let ghost mid = cands_view(out@);
        pre_gap_exec(data, arch, be, n, pos, pre_from, pre_limit, out);
        assert(mid == before + post);
        assert(cands_view(out@) == mid + pre);
        assert((before + post) + pre =~= before + (post + pre));
    } else {
        assert(end_candidates(data@, arch, be, n as int, end as int, nso as int)
            =~= Seq::<RelCandidate>::empty()) by {
            reveal(end_candidates);
        }
        assert(before + Seq::<RelCandidate>::empty() =~= before);
    }
}

/// All relative-table candidates for `arch`, in the order they are found.
fn relative_candidates_exec(data: &[u8], arch: KernelArch, be: bool, n: usize, nso: usize) -> (r: Vec<
    (usize, u64, OffsetsQuality),
>)
    requires
        buffer_len_ok(data@.len() as int),
    ensures
        cands_view(r@) == relative_candidates(
            data@,
            arch,
            be,
            n as int,
            nso as int,
            clip_sub(nso as int, 4096),
            nso as int,
        ),
        forall|k: int| 0 <= k < r@.len() ==> quality_bounded(#[trigger] r@[k].2),
{
    let offsets_size = mul_sat(n, 4);
    let min_end = if nso >= 4096 {
        nso - 4096
    } else {
        0
    };
    let ghost total = relative_candidates(data@, arch, be, n as int, nso as int, min_end as int, nso as int);
    let mut out: Vec<(usize, u64, OffsetsQuality)> = Vec::new();
    let mut offsets_end = nso;
    assert(cands_view(out@) =~= Seq::<RelCandidate>::empty());
    loop
        invariant
            buffer_len_ok(data@.len() as int),
            min_end == clip_sub(nso as int, 4096),
            offsets_end <= nso,
            offsets_size == (if n * 4 <= usize::MAX {
                (n * 4) as usize
            } else {
                usize::MAX
            }),
            forall|k: int| 0 <= k < out@.len() ==> quality_bounded(#[trigger] out@[k].2),
            total == relative_candidates(data@, arch, be, n as int, nso as int, min_end as int, nso as int),
            total == cands_view(out@) + relative_candidates(
                data@,
                arch,
                be,
                n as int,
                offsets_end as int,
                min_end as int,
                nso as int,
            ),
        decreases offsets_end,
    {
        let ghost before = cands_view(out@);
        let ghost rest = relative_candidates(
            data@,
            arch,
            be,
            n as int,
            offsets_end as int,
            min_end as int,
            nso as int,
        );
        if offsets_end < min_end {
            assert(rest =~= Seq::<RelCandidate>::empty());
            assert(before + rest =~= before);
            return out;
        }
        end_candidates_exec(data, arch, be, n, offsets_end, nso, offsets_size, &mut out);
        let ghost here = end_candidates(data@, arch, be, n as int, offsets_end as int, nso as int);
        if offsets_end < 4 {
            assert(rest =~= here);
            assert(before + rest =~= cands_view(out@));
            return out;
        }
        let ghost next = relative_candidates(
            data@,
            arch,
            be,
            n as int,
            offsets_end - 4,
            min_end as int,
            nso as int,
        );
        assert(rest =~= here + next);
        assert(before + rest =~= cands_view(out@) + next);
        offsets_end = offsets_end - 4;
    }
}

/// The index of the best candidate (the last one of highest quality).
fn best_candidate(c: &Vec<(usize, u64, OffsetsQuality)>) -> (r: usize)
    requires
        c@.len() >= 1,
        forall|k: int| 0 <= k < c@.len() ==> quality_bounded(#[trigger] c@[k].2),
    ensures
        r == best_index(cands_view(c@), c@.len() as int),
        r < c@.len(),
{
    let ghost cv = cands_view(c@);
    let mut best: usize = 0;
    let mut i: usize = 1;
    while i < c.len()
        invariant
            cv == cands_view(c@),
            1 <= i <= c@.len(),
            forall|k: int| 0 <= k < c@.len() ==> quality_bounded(#[trigger] c@[k].2),
            best == best_index(cv, i as int),
            best < i,
        decreases c.len() - i,
    {
        assert(cv[i as int].2 == c@[i as int].2);
        assert(cv[best as int].2 == c@[best as int].2);
        if quality_at_least(&c[i].2, &c[best].2) {
            best = i;
        }
        i = i + 1;
    }
    best
}

/// Find the relative offsets table for `arch`, if one is good enough.
fn relative_search_exec(data: &[u8], nso: usize, n: usize, arch: KernelArch, be: bool) -> (r: Option<
    (usize, u64),
>)
    requires
        buffer_len_ok(data@.len() as int),
    ensures
        match r {
            Some((p, b)) => relative_found(data@, nso as int, n as int, arch, be) == Some((p as int, b)),
            None => relative_found(data@, nso as int, n as int, arch, be) is None,
        },
{
    let candidates = relative_candidates_exec(data, arch, be, n, nso);
    if candidates.len() == 0 {
        return None;
    }
    let b = best_candidate(&candidates);
    let (p, base, q) = candidates[b];
    let (qn, qd) = quality_parts(&q);
    assert(cands_view(candidates@)[b as int] == cand_view(candidates@[b as int]));
    if 5 * qn >= qd {
        Some((p, base))
    } else {
        None
    }
}

/// The addresses table for one architecture: absolute, else relative.
fn table_for_arch_exec(data: &[u8], nso: usize, n: usize, arch: KernelArch, be: bool) -> (r: Option<
    (usize, Option<u64>),
>)
    requires
        buffer_len_ok(data@.len() as int),
    ensures
        match r {
            Some((p, b)) => table_for_arch(data@, nso as int, n as int, arch, be) == Some((p as int, b)),
            None => table_for_arch(data@, nso as int, n as int, arch, be) is None,
        },
{
    let ptr = arch.pointer_size();
    let table = mul_sat(n, ptr);
    let top = if nso >= table {
        nso - table
    } else {
        0
    };
    let start = top - top % ptr;
    let reach = add_sat(table, 16384);
    let limit = if nso >= reach {
        nso - reach
    } else {
        0
    };
    assert(start == absolute_start(nso as int, n as int, ptr as int));
    assert(limit == absolute_limit(nso as int, n as int, ptr as int));
    match absolute_search_exec(data, ptr, be, start, limit) {
        Some(p) => {
            return Some((p, None));
        },
        None => {},
    }
    match relative_search_exec(data, nso, n, arch, be) {
        Some((p, b)) => Some((p, Some(b))),
        None => None,
    }
}

/// Find the addresses (or relative offsets) table before the symbol count.
///
/// For each architecture tried (AArch64 then ARM32 when unknown): first an
/// absolute table, scanning down from where a table of `num_symbols`
/// pointers would end at the count, over 16 KiB, for a kernel address
/// followed by three that do not decrease; then a relative table, trying
/// table ends from the count down 4 KiB, with a kernel base just after the
/// offsets or up to 128 bytes before them, choosing the best candidate by
/// quality if it reaches 20%. Returns the table position, the relative
/// base if any, and the architecture.
pub fn find_addresses_table(
    data: &[u8],
    num_syms_offset: usize,
    num_symbols: usize,
    hint_arch: KernelArch,
    big_endian: bool,
) -> (r: Result<(usize, Option<u64>, KernelArch), Error>)
    requires
        buffer_len_ok(data@.len() as int),
    ensures
        match r {
            Ok((p, b, a)) => addresses_found(
                data@,
                num_syms_offset as int,
                num_symbols as int,
                hint_arch,
                big_endian,
            ) == Some((p as int, b, a)),
            Err(e) => addresses_found(
                data@,
                num_syms_offset as int,
                num_symbols as int,
                hint_arch,
                big_endian,
            ) is None && e is KallsymsNotFound && e->KallsymsNotFound_0@ == kallsyms_error_text(
                KallsymsError::AddressesNotFound,
            ),
        },
{
    if hint_arch == KernelArch::Unknown {
        match table_for_arch_exec(data, num_syms_offset, num_symbols, KernelArch::Arm64, big_endian) {
            Some((p, b)) => {
                return Ok((p, b, KernelArch::Arm64));
            },
            None => {},
        }
        match table_for_arch_exec(data, num_syms_offset, num_symbols, KernelArch::Arm32, big_endian) {
            Some((p, b)) => {
                return Ok((p, b, KernelArch::Arm32));
            },
            None => {},
        }
    } else {
        match table_for_arch_exec(data, num_syms_offset, num_symbols, hint_arch, big_endian) {
            Some((p, b)) => {
                return Ok((p, b, hint_arch));
            },
            None => {},
        }
    }
    Err(KallsymsError::AddressesNotFound.into_error())
}

// ------------------------------------------------------------------
// Whole scan
// ------------------------------------------------------------------

/// The scan result: token table and index, markers, symbol count and names,
/// then the addresses table, each found from the one before.
pub open spec fn scan_found(d: Seq<u8>, hint: KernelArch) -> Option<ScanResult> {
    match token_anchors(d) {
        None => None,
        Some((t, i, be)) => match markers_found(d, t, be) {
            None => None,
            Some((q, _es, c, l)) => match count_and_names(d, q, c, l, be) {
                None => None,
                Some((p, v, names)) => match addresses_found(d, p, (v as usize) as int, hint, be) {
                    None => None,
                    Some((a, b, arch)) => Some(
                        ScanResult {
                            addresses_offset: a as usize,
                            names_offset: names as usize,
                            token_table_offset: t as usize,
                            token_index_offset: i as usize,
                            markers_offset: q as usize,
                            num_symbols: v as usize,
                            arch,
                            big_endian: be,
                            relative_base_address: b,
                        },
                    ),
                },
            },
        },
    }
}

/// The message of the error a failed scan gives: that of the first stage
/// that failed.
pub open spec fn scan_error_text(d: Seq<u8>, hint: KernelArch) -> Seq<char> {
    match token_anchors(d) {
        None => kallsyms_error_text(KallsymsError::TokenTableNotFound),
        Some((t, i, be)) => match markers_found(d, t, be) {
            None => "Parse error: "@ + "Could not find kallsyms_markers"@,
            Some((q, _es, c, l)) => match count_and_names(d, q, c, l, be) {
                None => "Parse error: "@ + "Could not find num_symbols anchor"@,
                Some(_) => kallsyms_error_text(KallsymsError::AddressesNotFound),
            },
        },
    }
}

/// Perform a robust scan to find the kallsyms table offsets.
pub fn scan_for_kallsyms(data: &[u8], hint_arch: KernelArch) -> (r: Result<ScanResult, Error>)
    requires
        buffer_len_ok(data@.len() as int),
    ensures
        match r {
            Ok(s) => scan_found(data@, hint_arch) == Some(s),
            Err(e) => scan_found(data@, hint_arch) is None && e is KallsymsNotFound
                && e->KallsymsNotFound_0@ == scan_error_text(data@, hint_arch),
        },
{
    let (token_table_offset, token_index_offset, big_endian) = match find_token_anchors(data) {
        Ok(x) => x,
        Err(e) => {
            return Err(e);
        },
    };
    let (markers_offset, _element_size, marker_count, last_marker_val) = match find_markers(
        data,
        token_table_offset,
        big_endian,
    ) {
        Ok(x) => x,
        Err(e) => {
            return Err(e);
        },
    };
    let (num_syms_offset, num_symbols, names_offset) = match find_num_symbols_and_names(
        data,
        markers_offset,
        marker_count,
        last_marker_val,
        big_endian,
    ) {
        Ok(x) => x,
        Err(e) => {
            return Err(e);
        },
    };
    let (addresses_offset, relative_base, final_arch) = match find_addresses_table(
        data,
        num_syms_offset,
        num_symbols,
        hint_arch,
        big_endian,
    ) {
        Ok(x) => x,
        Err(e) => {
            return Err(e);
        },
    };
    Ok(
        ScanResult {
            addresses_offset,
            names_offset,
            token_table_offset,
            token_index_offset,
            markers_offset,
            num_symbols,
            arch: final_arch,
            big_endian,
            relative_base_address: relative_base,
        },
    )
}


/// The value of bytes read least significant first.
pub open spec fn little_endian_value(s: Seq<u8>) -> int
    decreases s.len(),
{
    if s.len() == 0 {
        0
    } else {
        s[0] + 256 * little_endian_value(s.drop_first())
    }
}

/// The value of bytes read most significant first.
pub open spec fn big_endian_value(s: Seq<u8>) -> int
    decreases s.len(),
{
    if s.len() == 0 {
        0
    } else {
        256 * big_endian_value(s.drop_last()) + s.last()
    }
}

/// Splits the two value readings of `s` at its first and last byte.
proof fn lemma_endian_values_step(s: Seq<u8>)
    requires
        s.len() >= 1,
    ensures
        little_endian_value(s) == s[0] + 256 * little_endian_value(s.subrange(1, s.len() as int)),
        big_endian_value(s) == 256 * big_endian_value(s.subrange(0, s.len() - 1)) + s[s.len() - 1],
{
    assert(s.drop_first() =~= s.subrange(1, s.len() as int));
    assert(s.drop_last() =~= s.subrange(0, s.len() - 1));
}

/// Splitting bytes at `k`: the low part's value plus the high part's value
/// shifted by `k` bytes (little-endian), and the other way round
/// (big-endian).
proof fn lemma_endian_split(s: Seq<u8>, k: int)
    requires
        k == 1 || k == 2 || k == 4,
        s.len() == 2 * k,
    ensures
        little_endian_value(s) == little_endian_value(s.subrange(0, k)) + pow256(k)
            * little_endian_value(s.subrange(k, 2 * k)),
        big_endian_value(s) == pow256(k) * big_endian_value(s.subrange(0, k)) + big_endian_value(
            s.subrange(k, 2 * k),
        ),
{
    lemma_little_endian_concat(s.subrange(0, k), s.subrange(k, 2 * k));
    lemma_big_endian_concat(s.subrange(0, k), s.subrange(k, 2 * k));
    assert(s.subrange(0, k) + s.subrange(k, 2 * k) =~= s);
}

/// `256` to the power `k`.
pub open spec fn pow256(k: int) -> int
    decreases k,
{
    if k <= 0 {
        1
    } else {
        256 * pow256(k - 1)
    }
}

/// The little-endian value of `a + b`.
proof fn lemma_little_endian_concat(a: Seq<u8>, b: Seq<u8>)
    ensures
        little_endian_value(a + b) == little_endian_value(a) + pow256(a.len() as int)
            * little_endian_value(b),
    decreases a.len(),
{
    if a.len() == 0 {
        assert(a + b =~= b);
    } else {
        lemma_little_endian_concat(a.drop_first(), b);
        assert((a + b).drop_first() =~= a.drop_first() + b);
        let x = little_endian_value(a.drop_first());
        let y = little_endian_value(b);
        let p = pow256(a.len() - 1);
        assert(256 * (x + p * y) == 256 * x + (256 * p) * y) by (nonlinear_arith);
    }
}

/// The big-endian value of `a + b`.
proof fn lemma_big_endian_concat(a: Seq<u8>, b: Seq<u8>)
    ensures
        big_endian_value(a + b) == pow256(b.len() as int) * big_endian_value(a) + big_endian_value(
            b,
        ),
    decreases b.len(),
{
    if b.len() == 0 {
        assert(a + b =~= a);
    } else {
        lemma_big_endian_concat(a, b.drop_last());
        assert((a + b).drop_last() =~= a + b.drop_last());
        assert((a + b).last() == b.last());
        let x = big_endian_value(a);
        let y = big_endian_value(b.drop_last());
        let p = pow256(b.len() - 1);
        assert(256 * (p * x + y) == (256 * p) * x + 256 * y) by (nonlinear_arith);
    }
}

/// Both readings of two bytes.
proof fn lemma_endian_width2(s: Seq<u8>)
    requires
        s.len() == 2,
    ensures
        little_endian_value(s) == s[0] + 0x100 * s[1],
        big_endian_value(s) == 0x100 * s[0] + s[1],
{
    lemma_endian_values_step(s);
    lemma_endian_values_step(s.subrange(1, 2));
    lemma_endian_values_step(s.subrange(0, 1));
    assert(s.subrange(1, 2).subrange(1, 1).len() == 0);
    assert(s.subrange(0, 1).subrange(0, 0).len() == 0);
}

/// Marker values are read in the scan's byte order: with `big_endian`
/// false, the entry of `es` bytes (8, 4 or 2) at `off` is the value of
/// `d[off..off + es]` read least significant byte first; with
/// `big_endian` true, most significant byte first.
pub proof fn law_marker_byte_order(d: Seq<u8>, off: int, es: int)
    requires
        es == 8 || es == 4 || es == 2,
        0 <= off,
        off + es <= d.len(),
    ensures
        elem_at(d, off, es, false) == little_endian_value(d.subrange(off, off + es)),
        elem_at(d, off, es, true) == big_endian_value(d.subrange(off, off + es)),
{
    assert(pow256(1) == 0x100 && pow256(2) == 0x1_0000 && pow256(4) == 0x1_0000_0000) by {
        reveal_with_fuel(pow256, 5);
    }
    lemma_endian_width2(d.subrange(off, off + 2));
    if es >= 4 {
        lemma_endian_width2(d.subrange(off + 2, off + 4));
    }
    if es == 8 {
        lemma_endian_width2(d.subrange(off + 4, off + 6));
        lemma_endian_width2(d.subrange(off + 6, off + 8));
    }
    if es == 2 {
        assert(little_endian_value(d.subrange(off, off + 2)) == le16(d, off));
    } else {
        assert(little_endian_value(d.subrange(off, off + 2)) == le16(d, off));
        assert(little_endian_value(d.subrange(off + 2, off + 4)) == le16(d, off + 2));
        lemma_endian_split(d.subrange(off, off + 4), 2);
        assert(d.subrange(off, off + 4).subrange(0, 2) =~= d.subrange(off, off + 2));
        assert(d.subrange(off, off + 4).subrange(2, 4) =~= d.subrange(off + 2, off + 4));
        if es == 8 {
            assert(little_endian_value(d.subrange(off + 4, off + 6)) == le16(d, off + 4));
            assert(little_endian_value(d.subrange(off + 6, off + 8)) == le16(d, off + 6));
            lemma_endian_split(d.subrange(off + 4, off + 8), 2);
            assert(d.subrange(off + 4, off + 8).subrange(0, 2) =~= d.subrange(off + 4, off + 6));
            assert(d.subrange(off + 4, off + 8).subrange(2, 4) =~= d.subrange(off + 6, off + 8));
            lemma_endian_split(d.subrange(off, off + 8), 4);
            assert(d.subrange(off, off + 8).subrange(0, 4) =~= d.subrange(off, off + 4));
            assert(d.subrange(off, off + 8).subrange(4, 8) =~= d.subrange(off + 4, off + 8));
        }
    }
}

} // verus!
