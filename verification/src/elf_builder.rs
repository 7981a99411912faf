//! ELF file builder.
//!
//! Reconstructs a debuggable ELF file from the raw kernel binary and the
//! recovered kallsyms symbols: the kernel is the text section, and each
//! symbol with a sound name becomes an ELF symbol at its offset from the
//! kernel base. The ELF writing itself is done by the `object` crate.

use crate::error::Error;
use crate::kallsyms::decoder::{sat_sub, SymbolView};
use crate::kallsyms::symbol_views;
use crate::kallsyms::types::{
    symbol_type_is_code, symbol_type_is_data, symbol_type_is_global, KallsymsResult, KernelArch,
    KernelSymbol, SymbolType,
};
use crate::text::text;
use vstd::prelude::*;
use vstd::utf8::encode_utf8;

verus! {

/// The ELF machine an image is written for.
#[derive(Debug, Clone, Copy, PartialEq, Eq, Structural)]
pub enum Architecture {
    /// AArch64.
    Aarch64,
    /// x86-64.
    X86_64,
    /// 32-bit ARM.
    Arm,
    /// 32-bit x86.
    I386,
    /// 64-bit RISC-V.
    Riscv64,
}

/// The byte order of an ELF image.
#[derive(Debug, Clone, Copy, PartialEq, Eq, Structural)]
pub enum Endianness {
    /// Little-endian.
    Little,
    /// Big-endian.
    Big,
}

/// The kind of an ELF symbol.
#[derive(Debug, Clone, Copy, PartialEq, Eq, Structural)]
pub enum ElfSymbolKind {
    /// Code.
    Text,
    /// Data.
    Data,
    /// A plain label.
    Label,
}

/// The scope of an ELF symbol.
#[derive(Debug, Clone, Copy, PartialEq, Eq, Structural)]
pub enum ElfSymbolScope {
    /// Visible to other objects.
    Dynamic,
    /// Local to the object.
    Compilation,
}

/// An ELF symbol to be written: name bytes, value (offset in the text
/// section), size, kind, scope and weak binding.
pub struct ElfSymbol {
    /// The name, as bytes.
    pub name: Vec<u8>,
    /// The offset in the text section.
    pub value: u64,
    /// The size in bytes.
    pub size: u64,
    /// The kind.
    pub kind: ElfSymbolKind,
    /// The scope.
    pub scope: ElfSymbolScope,
    /// Whether the binding is weak.
    pub weak: bool,
}

/// The plain values of an ELF symbol.
pub type ElfSymbolView = (Seq<u8>, u64, u64, ElfSymbolKind, ElfSymbolScope, bool);

impl View for ElfSymbol {
    type V = ElfSymbolView;

    open spec fn view(&self) -> ElfSymbolView {
        (self.name@, self.value, self.size, self.kind, self.scope, self.weak)
    }
}

#[verifier::external_type_specification]
#[verifier::external_body]
pub struct ExObject<'a>(object::write::Object<'a>);

#[verifier::external_type_specification]
#[verifier::external_body]
pub struct ExSectionId(object::write::SectionId);

/// The symbols added to an object, in order.
pub uninterp spec fn elf_object_symbols(obj: object::write::Object<'static>) -> Seq<ElfSymbolView>;

/// The machine and byte order of an object, and its text section if it has
/// one: the section's id, data and alignment. Objects made by the wrappers
/// below hold nothing else but their symbols.
pub uninterp spec fn elf_object_layout(obj: object::write::Object<'static>) -> (
    Architecture,
    Endianness,
    Option<(object::write::SectionId, Seq<u8>, u64)>,
);

/// What writing an ELF object of the given machine, byte order, text section
/// (data and alignment, if there is one) and symbols gives: the file, or the
/// text of the error.
pub uninterp spec fn elf_image(
    arch: Architecture,
    endian: Endianness,
    text: Option<(Seq<u8>, u64)>,
    symbols: Seq<ElfSymbolView>,
) -> Result<Seq<u8>, Seq<char>>;

/// The data and alignment of a text section, without its id.
pub open spec fn text_contents(t: Option<(object::write::SectionId, Seq<u8>, u64)>) -> Option<
    (Seq<u8>, u64),
> {
    match t {
        Some((_, data, align)) => Some((data, align)),
        None => None,
    }
}

/// Whether `section` is the object's text section.
pub open spec fn is_text_section(
    obj: object::write::Object<'static>,
    section: object::write::SectionId,
) -> bool {
    elf_object_layout(obj).2 matches Some((id, _, _)) && id == section
}

/// `object::write::Object::new` for an ELF file of the given machine and
/// byte order.
///
/// Claimed: the new object has no symbols and no sections.
#[verifier::external_body]
fn elf_object_new(arch: Architecture, endian: Endianness) -> (r: object::write::Object<'static>)
    ensures
        elf_object_symbols(r) == Seq::<ElfSymbolView>::empty(),
        elf_object_layout(r) == (arch, endian, None::<(object::write::SectionId, Seq<u8>, u64)>),
{
    let machine = match arch {
        Architecture::Aarch64 => object::Architecture::Aarch64,
        Architecture::X86_64 => object::Architecture::X86_64,
        Architecture::Arm => object::Architecture::Arm,
        Architecture::I386 => object::Architecture::I386,
        Architecture::Riscv64 => object::Architecture::Riscv64,
    };
    let order = match endian { Endianness::Little => object::Endianness::Little, Endianness::Big => object::Endianness::Big };
    object::write::Object::new(object::BinaryFormat::Elf, machine, order)
}

/// `Object::section_id(StandardSection::Text)`: the text section, created
/// empty with alignment 1 if it is not there yet.
///
/// Claimed: the result is the text section; the symbols, and an existing
/// text section, are unchanged.
#[verifier::external_body]
fn elf_text_section(obj: &mut object::write::Object<'static>) -> (r: object::write::SectionId)
    ensures
        elf_object_symbols(*final(obj)) == elf_object_symbols(*old(obj)),
        elf_object_layout(*final(obj)).0 == elf_object_layout(*old(obj)).0,
        elf_object_layout(*final(obj)).1 == elf_object_layout(*old(obj)).1,
        match elf_object_layout(*old(obj)).2 {
            Some((id, _, _)) => r == id && elf_object_layout(*final(obj)) == elf_object_layout(
                *old(obj),
            ),
            None => elf_object_layout(*final(obj)).2 == Some((r, Seq::<u8>::empty(), 1u64)),
        },
{
    obj.section_id(object::write::StandardSection::Text)
}

/// `Object::append_section_data` into the (empty) text section.
///
/// Claimed: the data lands at offset 0 and becomes the section's data; the
/// section's alignment becomes `align`, which is no less than it was; the
/// symbols are unchanged.
#[verifier::external_body]
fn elf_append_section_data(
    obj: &mut object::write::Object<'static>,
    section: object::write::SectionId,
    data: &[u8],
    align: u64,
) -> (r: u64)
    requires
        elf_object_layout(*old(obj)).2 matches Some((id, d, a)) && id == section && d.len() == 0
            && 1 <= a <= align,
        align == 4096,
    ensures
        r == 0,
        elf_object_symbols(*final(obj)) == elf_object_symbols(*old(obj)),
        elf_object_layout(*final(obj)) == (
            elf_object_layout(*old(obj)).0,
            elf_object_layout(*old(obj)).1,
            Some((section, data@, align)),
        ),
{
    obj.append_section_data(section, data, align)
}

/// `Object::add_symbol` for a symbol in the text section.
///
/// Claimed: the symbol is appended to the object's symbols (ELF names get
/// no prefix); the text section is unchanged.
#[verifier::external_body]
fn elf_add_symbol(
    obj: &mut object::write::Object<'static>,
    sym: &ElfSymbol,
    section: object::write::SectionId,
)
    requires
        is_text_section(*old(obj), section),
    ensures
        elf_object_symbols(*final(obj)) == elf_object_symbols(*old(obj)).push(sym@),
        elf_object_layout(*final(obj)) == elf_object_layout(*old(obj)),
{
    let kind = match sym.kind {
        ElfSymbolKind::Text => object::SymbolKind::Text,
        ElfSymbolKind::Data => object::SymbolKind::Data,
        ElfSymbolKind::Label => object::SymbolKind::Label,
    };
    let scope = match sym.scope { ElfSymbolScope::Dynamic => object::SymbolScope::Dynamic, ElfSymbolScope::Compilation => object::SymbolScope::Compilation };
    let section = object::write::SymbolSection::Section(section);
    let (name, value, size, weak, flags) = (sym.name.clone(), sym.value, sym.size, sym.weak, object::SymbolFlags::None);
    obj.add_symbol(object::write::Symbol { name, value, size, kind, scope, weak, section, flags });
}

/// `Object::write`, its error as text.
///
/// Claimed: the file depends on the machine, byte order, text section and
/// symbols alone (all that an object made by the wrappers above holds).
#[verifier::external_body]
fn elf_write(obj: &object::write::Object<'static>) -> (r: Result<Vec<u8>, String>)
    ensures
        match r {
            Ok(v) => elf_image(
                elf_object_layout(*obj).0,
                elf_object_layout(*obj).1,
                text_contents(elf_object_layout(*obj).2),
                elf_object_symbols(*obj),
            ) == Ok::<Seq<u8>, Seq<char>>(v@),
            Err(t) => elf_image(
                elf_object_layout(*obj).0,
                elf_object_layout(*obj).1,
                text_contents(elf_object_layout(*obj).2),
                elf_object_symbols(*obj),
            ) == Err::<Seq<u8>, Seq<char>>(t@),
        },
{
    match obj.write() {
        Ok(v) => Ok(v),
        Err(e) => Err(e.to_string()),
    }
}

/// The ELF machine and byte order of a kernel architecture, if it has one.
pub open spec fn elf_params(arch: KernelArch) -> Option<(Architecture, Endianness)> {
    match arch {
        KernelArch::Arm64 => Some((Architecture::Aarch64, Endianness::Little)),
        KernelArch::X86_64 => Some((Architecture::X86_64, Endianness::Little)),
        KernelArch::Arm32 => Some((Architecture::Arm, Endianness::Little)),
        KernelArch::X86 => Some((Architecture::I386, Endianness::Little)),
        KernelArch::RiscV64 => Some((Architecture::Riscv64, Endianness::Little)),
        KernelArch::Unknown => None,
    }
}

/// The number of non-overlapping occurrences of `p` in `b` from `i` on,
/// found left to right.
pub open spec fn count_matches(b: Seq<u8>, p: Seq<u8>, i: int) -> int
    decreases b.len() - i,
{
    if p.len() == 0 || i < 0 || i + p.len() > b.len() {
        0
    } else if b.subrange(i, i + p.len()) == p {
        1 + count_matches(b, p, i + p.len())
    } else {
        count_matches(b, p, i + 1)
    }
}

/// Whether the first `k` bytes of `b` repeat through it more than 40% of
/// the times they could.
pub open spec fn repeats_too_often(b: Seq<u8>, k: int) -> bool {
    b.len() >= k * 3 && count_matches(b, b.subrange(0, k), 0) > (b.len() as int / k) * 2 / 5
}

/// Whether a name of at least 8 bytes is a 2- or 3-byte pattern repeated
/// (like `tltltltl`).
pub open spec fn repetitive_garbage(b: Seq<u8>) -> bool {
    b.len() >= 8 && (repeats_too_often(b, 2) || repeats_too_often(b, 3))
}

/// Bytes that mark a corrupted name: NUL and control characters other than
/// tab.
pub open spec fn bad_name_byte(b: u8) -> bool {
    b == 0 || (b < 0x20 && b != 0x09)
}

/// Whether a symbol name is corrupted: empty, holding a bad byte, or
/// repetitive garbage.
pub open spec fn corrupted_name(name: Seq<char>) -> bool {
    let b = encode_utf8(name);
    ||| name.len() == 0
    ||| exists|i: int| 0 <= i < b.len() && bad_name_byte(#[trigger] b[i])
    ||| repetitive_garbage(b)
}

/// The ELF symbol a kernel symbol (address, name, type, size) becomes,
/// with addresses taken from `base`.
pub open spec fn elf_symbol_of(s: SymbolView, base: u64) -> ElfSymbolView {
    (
        encode_utf8(s.1),
        sat_sub(s.0, base),
        match s.3 {
            Some(n) => n,
            None => 0,
        },
        if symbol_type_is_code(s.2) {
            ElfSymbolKind::Text
        } else if symbol_type_is_data(s.2) {
            ElfSymbolKind::Data
        } else {
            ElfSymbolKind::Label
        },
        if symbol_type_is_global(s.2) {
            ElfSymbolScope::Dynamic
        } else {
            ElfSymbolScope::Compilation
        },
        s.2 == SymbolType::Weak || s.2 == SymbolType::WeakLocal,
    )
}

/// The ELF symbols the first `k` kernel symbols give: those with sound
/// names, in order.
pub open spec fn elf_symbols_of(syms: Seq<SymbolView>, base: u64, k: int) -> Seq<ElfSymbolView>
    decreases k,
{
    if k <= 0 {
        Seq::empty()
    } else {
        elf_symbols_of(syms, base, k - 1) + if corrupted_name(syms[k - 1].1) {
            Seq::empty()
        } else {
            seq![elf_symbol_of(syms[k - 1], base)]
        }
    }
}

/// Builder for ELF files with recovered symbols.
pub struct ElfBuilder<'a> {
    /// Raw kernel binary.
    kernel_data: &'a [u8],
    /// Recovered symbols.
    symbols: &'a KallsymsResult,
}

impl<'a> ElfBuilder<'a> {
    /// The kernel binary.
    pub closed spec fn kernel_view(&self) -> Seq<u8> {
        self.kernel_data@
    }

    /// The recovered symbols.
    pub closed spec fn symbols_view(&self) -> KallsymsResult {
        *self.symbols
    }

    /// The symbols the ELF file gets.
    pub open spec fn planned_symbols(&self) -> Seq<ElfSymbolView> {
        elf_symbols_of(
            symbol_views(self.symbols_view().symbols@),
            self.symbols_view().kernel_base,
            self.symbols_view().symbols@.len() as int,
        )
    }

    /// Create a new ELF builder over a (decompressed) kernel and its
    /// recovered symbols.
    pub fn new(kernel_data: &'a [u8], symbols: &'a KallsymsResult) -> (r: Self)
        ensures
            r.kernel_view() == kernel_data@,
            r.symbols_view() == *symbols,
    {
        ElfBuilder { kernel_data, symbols }
    }

    /// Build the ELF file and return its bytes.
    ///
    /// The kernel is the text section (aligned to 4096); each symbol with a
    /// sound name is added.
    pub fn build(&self) -> (r: Result<Vec<u8>, Error>)
        ensures
            match elf_params(self.symbols_view().arch) {
                None => r matches Err(e) && e is UnsupportedArch && e->UnsupportedArch_0@
                    == "Cannot determine ELF architecture"@,
                Some((arch, endian)) => match elf_image(
                    arch,
                    endian,
                    Some((self.kernel_view(), 4096u64)),
                    self.planned_symbols(),
                ) {
                    Ok(v) => r matches Ok(out) && out@ == v,
                    Err(t) => r matches Err(e) && e is ElfBuildError && e->ElfBuildError_0@ == t,
                },
            },
    {
        let (arch, endian) = match self.get_elf_params() {
            Ok(p) => p,
            Err(e) => {
                return Err(e);
            },
        };
        let mut obj = elf_object_new(arch, endian);
        let text_section = elf_text_section(&mut obj);
        elf_append_section_data(&mut obj, text_section, self.kernel_data, 4096);
        let syms = &self.symbols.symbols;
        let ghost base = self.symbols.kernel_base;
        let mut i: usize = 0;
        while i < syms.len()
            invariant
                i <= syms@.len(),
                syms@ == self.symbols_view().symbols@,
                base == self.symbols_view().kernel_base,
                elf_object_layout(obj) == (arch, endian, Some((text_section, self.kernel_view(), 4096u64))),
                elf_object_symbols(obj) == elf_symbols_of(symbol_views(syms@), base, i as int),
            decreases syms.len() - i,
        {
            self.add_symbol(&mut obj, &syms[i], text_section);
            assert(symbol_views(syms@)[i as int] == syms@[i as int]@);
            i = i + 1;
        }
        match elf_write(&obj) {
            Ok(bytes) => Ok(bytes),
            Err(t) => Err(Error::ElfBuildError(t)),
        }
    }

    /// The ELF machine and byte order for the symbols' architecture.
    pub fn get_elf_params(&self) -> (r: Result<(Architecture, Endianness), Error>)
        ensures
            match elf_params(self.symbols_view().arch) {
                Some(p) => r == Ok::<(Architecture, Endianness), Error>(p),
                None => r matches Err(e) && e is UnsupportedArch && e->UnsupportedArch_0@
                    == "Cannot determine ELF architecture"@,
            },
    {
        match self.symbols.arch {
            KernelArch::Arm64 => Ok((Architecture::Aarch64, Endianness::Little)),
            KernelArch::X86_64 => Ok((Architecture::X86_64, Endianness::Little)),
            KernelArch::Arm32 => Ok((Architecture::Arm, Endianness::Little)),
            KernelArch::X86 => Ok((Architecture::I386, Endianness::Little)),
            KernelArch::RiscV64 => Ok((Architecture::Riscv64, Endianness::Little)),
            KernelArch::Unknown => Err(
                Error::UnsupportedArch(text("Cannot determine ELF architecture")),
            ),
        }
    }

    /// Add a kernel symbol to the ELF object, skipping it when its name is
    /// corrupted.
    fn add_symbol(
        &self,
        obj: &mut object::write::Object<'static>,
        sym: &KernelSymbol,
        section: object::write::SectionId,
    )
        requires
            is_text_section(*old(obj), section),
        ensures
            elf_object_layout(*final(obj)) == elf_object_layout(*old(obj)),
            elf_object_symbols(*final(obj)) == elf_object_symbols(*old(obj)) + if corrupted_name(
                sym.name@,
            ) {
                Seq::empty()
            } else {
                seq![elf_symbol_of(sym@, self.symbols_view().kernel_base)]
            },
    {
        let bytes = sym.name.as_str().as_bytes();
        let ghost b = encode_utf8(sym.name@);
        assert(bytes@ == b);
        let mut bad = sym.name.as_str().is_empty();
        let mut k: usize = 0;
        while k < bytes.len()
            invariant
                bytes@ == b,
                k <= b.len(),
                bad == (sym.name@.len() == 0 || exists|i: int|
                    0 <= i < k && bad_name_byte(#[trigger] b[i])),
            decreases bytes.len() - k,
        {
            let c = bytes[k];
            if c == 0 || (c < 0x20 && c != 0x09) {
                bad = true;
            }
            k = k + 1;
        }
        if bad || Self::is_repetitive_garbage(sym.name.as_str()) {
            assert(corrupted_name(sym.name@));
            assert(elf_object_symbols(*old(obj)) + Seq::<ElfSymbolView>::empty() =~= elf_object_symbols(*obj));
            return;
        }
        let kind = if sym.sym_type.is_code() {
            ElfSymbolKind::Text
        } else if sym.sym_type.is_data() {
            ElfSymbolKind::Data
        } else {
            ElfSymbolKind::Label
        };
        let scope = if sym.sym_type.is_global() {
            ElfSymbolScope::Dynamic
        } else {
            ElfSymbolScope::Compilation
        };
        let value = sym.address.saturating_sub(self.symbols.kernel_base);
        let size = match sym.size {
            Some(n) => n,
            None => 0,
        };
        let weak = match sym.sym_type {
            SymbolType::Weak | SymbolType::WeakLocal => true,
            _ => false,
        };
        let entry = ElfSymbol {
            name: vstd::slice::slice_to_vec(bytes),
            value,
            size,
            kind,
            scope,
            weak,
        };
        elf_add_symbol(obj, &entry, section);
        assert(elf_object_symbols(*old(obj)).push(entry@) =~= elf_object_symbols(*old(obj)) + seq![
            elf_symbol_of(sym@, self.symbols_view().kernel_base),
        ]);
    }

    /// Detect repetitive garbage names like `tltltltl` or `caltcaltcalt`:
    /// names of at least 8 bytes whose first 2 or 3 bytes occur (without
    /// overlapping) more than 40% of the times they could.
    pub fn is_repetitive_garbage(name: &str) -> (r: bool)
        ensures
            r == repetitive_garbage(encode_utf8(name@)),
    {
        let b = name.as_bytes();
        if b.len() < 8 {
            return false;
        }
        let mut k: usize = 2;
        while k <= 3
            invariant
                b@ == encode_utf8(name@),
                b@.len() >= 8,
                2 <= k <= 4,
                forall|j: int| 2 <= j < k ==> !repeats_too_often(b@, j),
            decreases 4 - k,
        {
            if b.len() >= k * 3 {
                let count = count_occurrences(b, k);
                let slots = b.len() / k;
                assert(slots * 2 <= b.len()) by (nonlinear_arith)
                    requires
                        slots == b.len() / k,
                        k >= 2,
                ;
                if count > slots * 2 / 5 {
                    return true;
                }
            }
            k = k + 1;
        }
        false
    }
}

/// Counts the non-overlapping occurrences of the first `k` bytes of `b`,
/// left to right.
fn count_occurrences(b: &[u8], k: usize) -> (r: usize)
    requires
        1 <= k <= b@.len(),
    ensures
        r == count_matches(b@, b@.subrange(0, k as int), 0),
{
    let ghost p = b@.subrange(0, k as int);
    let mut count: usize = 0;
    let mut i: usize = 0;
    while k <= b.len() - i
        invariant
            1 <= k <= b@.len(),
            p == b@.subrange(0, k as int),
            i <= b@.len(),
            count <= i,
            count + count_matches(b@, p, i as int) == count_matches(b@, p, 0),
        decreases b.len() - i,
    {
        let mut j: usize = 0;
        while j < k && b[i + j] == b[j]
            invariant
                1 <= k <= b@.len(),
                i + k <= b@.len(),
                i + k <= b.len(),
                j <= k,
                forall|m: int| 0 <= m < j ==> b@[i + m] == #[trigger] b@[m],
            decreases k - j,
        {
            j = j + 1;
        }
        if j == k {
            assert(b@.subrange(i as int, i + k) =~= p);
            count = count + 1;
            i = i + k;
        } else {
            assert(b@.subrange(i as int, i + k) != p) by {
                assert(b@.subrange(i as int, i + k)[j as int] != p[j as int]);
            }
            i = i + 1;
        }
    }
    count
}

/// Generate an ELF file from kernel data and symbols.
pub fn build_elf(kernel_data: &[u8], symbols: &KallsymsResult) -> (r: Result<Vec<u8>, Error>)
    ensures
        match elf_params(symbols.arch) {
            None => r matches Err(e) && e is UnsupportedArch && e->UnsupportedArch_0@
                == "Cannot determine ELF architecture"@,
            Some((arch, endian)) => match elf_image(
                arch,
                endian,
                Some((kernel_data@, 4096u64)),
                elf_symbols_of(
                    symbol_views(symbols.symbols@),
                    symbols.kernel_base,
                    symbols.symbols@.len() as int,
                ),
            ) {
                Ok(v) => r matches Ok(out) && out@ == v,
                Err(t) => r matches Err(e) && e is ElfBuildError && e->ElfBuildError_0@ == t,
            },
        },
{
    ElfBuilder::new(kernel_data, symbols).build()
}


/// An ELF symbol's value is its kernel symbol's offset in the text section
/// that holds the kernel: the address minus the kernel base, or 0 for an
/// address below the base. So `value + base == address` whenever the
/// address is at or above the base. Its name is the UTF-8 of the symbol's
/// name, and its size the symbol's size (0 when unknown).
pub proof fn law_elf_symbol_value(s: SymbolView, base: u64)
    ensures
        s.0 >= base ==> elf_symbol_of(s, base).1 + base == s.0,
        s.0 < base ==> elf_symbol_of(s, base).1 == 0,
        elf_symbol_of(s, base).1 <= s.0,
        elf_symbol_of(s, base).0 == encode_utf8(s.1),
        s.3 matches Some(n) ==> elf_symbol_of(s, base).2 == n,
        s.3 is None ==> elf_symbol_of(s, base).2 == 0,
{
}

} // verus!
