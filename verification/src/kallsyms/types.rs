//! Core type definitions for kallsyms recovery.

use crate::error::Error;
use crate::text::{alt_hex_text, dec_text, push_alt_hex, push_dec, push_str, text};
use vstd::prelude::*;

verus! {

/// Errors that can occur during kallsyms recovery.
#[derive(Debug)]
pub enum KallsymsError {
    /// Failed to locate the addresses table.
    AddressesNotFound,
    /// Failed to locate the names table.
    NamesNotFound,
    /// Failed to locate the token table.
    TokenTableNotFound,
    /// Failed to locate the token index.
    TokenIndexNotFound,
    /// Invalid relative offset encountered.
    InvalidRelativeOffset {
        /// Byte offset in the data.
        offset: usize,
        /// Description of the issue.
        message: String,
    },
    /// Token recursion depth exceeded.
    TokenRecursionLimit {
        /// Token that caused the overflow.
        token_id: usize,
        /// Maximum allowed depth.
        max_depth: usize,
    },
    /// Index out of bounds during parsing.
    IndexOutOfBounds {
        /// Requested index.
        index: usize,
        /// Maximum valid index.
        max: usize,
    },
    /// Unexpected end of data while parsing.
    UnexpectedEof {
        /// Current offset.
        offset: usize,
        /// Bytes needed.
        needed: usize,
    },
    /// Invalid UTF-8 in symbol name.
    InvalidUtf8 {
        /// Symbol index.
        index: usize,
    },
    /// A symbol name that cannot be decoded.
    InvalidSymbolName {
        /// Symbol index.
        index: usize,
        /// Why the name is invalid.
        reason: String,
    },
    /// Generic parse error.
    ParseError(String),
    /// Unsupported kernel format.
    UnsupportedFormat(String),
}

/// The text a kallsyms error displays.
pub open spec fn kallsyms_error_text(e: KallsymsError) -> Seq<char> {
    match e {
        KallsymsError::AddressesNotFound => "Could not locate kallsyms_addresses table"@,
        KallsymsError::NamesNotFound => "Could not locate kallsyms_names table"@,
        KallsymsError::TokenTableNotFound => "Could not locate kallsyms_token_table"@,
        KallsymsError::TokenIndexNotFound => "Could not locate kallsyms_token_index"@,
        KallsymsError::InvalidRelativeOffset { offset, message } =>
            "Invalid relative offset at position "@ + alt_hex_text(offset as nat) + ": "@
                + message@,
        KallsymsError::TokenRecursionLimit { token_id, max_depth } =>
            "Token expansion exceeded max depth ("@ + dec_text(max_depth as nat)
                + ") at token "@ + dec_text(token_id as nat),
        KallsymsError::IndexOutOfBounds { index, max } => "Index "@ + dec_text(index as nat)
            + " out of bounds (max: "@ + dec_text(max as nat) + ")"@,
        KallsymsError::UnexpectedEof { offset, needed } => "Unexpected end of data at offset "@
            + alt_hex_text(offset as nat) + ", needed "@ + dec_text(needed as nat) + " bytes"@,
        KallsymsError::InvalidUtf8 { index } => "Invalid UTF-8 in symbol name at index "@
            + dec_text(index as nat),
        KallsymsError::InvalidSymbolName { index, reason } => "Invalid symbol name at index "@
            + dec_text(index as nat) + ": "@ + reason@,
        KallsymsError::ParseError(m) => "Parse error: "@ + m@,
        KallsymsError::UnsupportedFormat(m) => "Unsupported kernel format: "@ + m@,
    }
}

impl KallsymsError {
    /// The error's message, as it is displayed.
    pub fn message(&self) -> (r: String)
        ensures
            r@ == kallsyms_error_text(*self),
    {
        match self {
            KallsymsError::AddressesNotFound => text("Could not locate kallsyms_addresses table"),
            KallsymsError::NamesNotFound => text("Could not locate kallsyms_names table"),
            KallsymsError::TokenTableNotFound => text("Could not locate kallsyms_token_table"),
            KallsymsError::TokenIndexNotFound => text("Could not locate kallsyms_token_index"),
            KallsymsError::InvalidRelativeOffset { offset, message } => {
                let mut s = text("Invalid relative offset at position ");
                push_alt_hex(&mut s, *offset as u64);
                push_str(&mut s, ": ");
                push_str(&mut s, message.as_str());
                s
            },
            KallsymsError::TokenRecursionLimit { token_id, max_depth } => {
                let mut s = text("Token expansion exceeded max depth (");
                push_dec(&mut s, *max_depth as u64);
                push_str(&mut s, ") at token ");
                push_dec(&mut s, *token_id as u64);
                s
            },
            KallsymsError::IndexOutOfBounds { index, max } => {
                let mut s = text("Index ");
                push_dec(&mut s, *index as u64);
                push_str(&mut s, " out of bounds (max: ");
                push_dec(&mut s, *max as u64);
                push_str(&mut s, ")");
                s
            },
            KallsymsError::UnexpectedEof { offset, needed } => {
                let mut s = text("Unexpected end of data at offset ");
                push_alt_hex(&mut s, *offset as u64);
                push_str(&mut s, ", needed ");
                push_dec(&mut s, *needed as u64);
                push_str(&mut s, " bytes");
                s
            },
            KallsymsError::InvalidUtf8 { index } => {
                let mut s = text("Invalid UTF-8 in symbol name at index ");
                push_dec(&mut s, *index as u64);
                s
            },
            KallsymsError::InvalidSymbolName { index, reason } => {
                let mut s = text("Invalid symbol name at index ");
                push_dec(&mut s, *index as u64);
                push_str(&mut s, ": ");
                push_str(&mut s, reason.as_str());
                s
            },
            KallsymsError::ParseError(m) => {
                let mut s = text("Parse error: ");
                push_str(&mut s, m.as_str());
                s
            },
            KallsymsError::UnsupportedFormat(m) => {
                let mut s = text("Unsupported kernel format: ");
                push_str(&mut s, m.as_str());
                s
            },
        }
    }

    /// The crate-level error for this kallsyms error: its message under
    /// `Error::KallsymsNotFound`.
    pub fn into_error(self) -> (r: Error)
        ensures
            r == Error::KallsymsNotFound(r->KallsymsNotFound_0),
            r->KallsymsNotFound_0@ == kallsyms_error_text(self),
    {
        Error::KallsymsNotFound(self.message())
    }
}

/// Detected kernel architecture.
#[derive(Debug, Clone, Copy, PartialEq, Eq, Structural)]
pub enum KernelArch {
    /// ARM 64-bit (AArch64).
    Arm64,
    /// x86 64-bit.
    X86_64,
    /// ARM 32-bit.
    Arm32,
    /// x86 32-bit.
    X86,
    /// RISC-V 64-bit.
    RiscV64,
    /// Unknown architecture.
    Unknown,
}

/// Whether `arch` is a 64-bit architecture.
pub open spec fn arch_is_64bit(arch: KernelArch) -> bool {
    arch == KernelArch::Arm64 || arch == KernelArch::X86_64 || arch == KernelArch::RiscV64
}

/// Pointer size in bytes: 4 on 32-bit architectures, 8 otherwise
/// (an unknown architecture is taken as 64-bit).
pub open spec fn arch_pointer_size(arch: KernelArch) -> usize {
    if arch == KernelArch::Arm32 || arch == KernelArch::X86 {
        4
    } else {
        8
    }
}

impl KernelArch {
    /// Get the pointer size for this architecture in bytes.
    pub fn pointer_size(&self) -> (r: usize)
        ensures
            r == arch_pointer_size(*self),
    {
        match self {
            KernelArch::Arm64 | KernelArch::X86_64 | KernelArch::RiscV64 => 8,
            KernelArch::Arm32 | KernelArch::X86 => 4,
            KernelArch::Unknown => 8,
        }
    }

    /// Check if this is a 64-bit architecture.
    pub fn is_64bit(&self) -> (r: bool)
        ensures
            r == arch_is_64bit(*self),
    {
        match self {
            KernelArch::Arm64 | KernelArch::X86_64 | KernelArch::RiscV64 => true,
            _ => false,
        }
    }
}

/// Address storage format in the kallsyms tables.
#[derive(Debug, Clone, Copy, PartialEq, Eq, Structural)]
pub enum AddressFormat {
    /// 32-bit absolute addresses (legacy kernels).
    Absolute32,
    /// 64-bit absolute addresses.
    Absolute64,
    /// 32-bit relative offsets: `relative_base + (i32 offset)`.
    Relative32,
}

impl AddressFormat {
    /// Get the size of each address entry in bytes.
    pub fn entry_size(&self) -> (r: usize)
        ensures
            r == (if *self == AddressFormat::Absolute64 { 8usize } else { 4usize }),
    {
        match self {
            AddressFormat::Absolute32 | AddressFormat::Relative32 => 4,
            AddressFormat::Absolute64 => 8,
        }
    }
}

/// Complete kallsyms configuration detected from the binary.
#[derive(Debug, Clone, Copy, PartialEq, Eq, Structural)]
pub struct KallsymsConfig {
    /// Detected kernel architecture.
    pub arch: KernelArch,
    /// Address storage format.
    pub format: AddressFormat,
    /// Kernel base address.
    pub kernel_base: u64,
    /// Relative base address (only for Relative32 format).
    pub relative_base: Option<u64>,
    /// Whether big-endian encoding is used.
    pub big_endian: bool,
}

impl Default for KallsymsConfig {
    fn default() -> (r: Self)
        ensures
            r == (KallsymsConfig {
                arch: KernelArch::Unknown,
                format: AddressFormat::Absolute64,
                kernel_base: 0,
                relative_base: None,
                big_endian: false,
            }),
    {
        KallsymsConfig {
            arch: KernelArch::Unknown,
            format: AddressFormat::Absolute64,
            kernel_base: 0,
            relative_base: None,
            big_endian: false,
        }
    }
}

/// Linux kernel symbol type (from nm output).
#[derive(Debug, Clone, Copy, PartialEq, Eq, Structural)]
pub enum SymbolType {
    /// Text (code) section, global.
    Text,
    /// Text section, local.
    TextLocal,
    /// Data section, global.
    Data,
    /// Data section, local.
    DataLocal,
    /// BSS (uninitialized data), global.
    Bss,
    /// BSS, local.
    BssLocal,
    /// Read-only data, global.
    Rodata,
    /// Read-only data, local.
    RodataLocal,
    /// Weak symbol.
    Weak,
    /// Weak symbol, local.
    WeakLocal,
    /// Absolute symbol.
    Absolute,
    /// Unknown type.
    Unknown(char),
}

/// The symbol type that a kallsyms type character denotes.
pub open spec fn symbol_type_of(c: char) -> SymbolType {
    if c == 'T' {
        SymbolType::Text
    } else if c == 't' {
        SymbolType::TextLocal
    } else if c == 'D' {
        SymbolType::Data
    } else if c == 'd' {
        SymbolType::DataLocal
    } else if c == 'B' {
        SymbolType::Bss
    } else if c == 'b' {
        SymbolType::BssLocal
    } else if c == 'R' {
        SymbolType::Rodata
    } else if c == 'r' {
        SymbolType::RodataLocal
    } else if c == 'W' || c == 'V' {
        SymbolType::Weak
    } else if c == 'w' || c == 'v' {
        SymbolType::WeakLocal
    } else if c == 'A' {
        SymbolType::Absolute
    } else {
        SymbolType::Unknown(c)
    }
}

/// The character that represents a symbol type.
pub open spec fn symbol_type_char(t: SymbolType) -> char {
    match t {
        SymbolType::Text => 'T',
        SymbolType::TextLocal => 't',
        SymbolType::Data => 'D',
        SymbolType::DataLocal => 'd',
        SymbolType::Bss => 'B',
        SymbolType::BssLocal => 'b',
        SymbolType::Rodata => 'R',
        SymbolType::RodataLocal => 'r',
        SymbolType::Weak => 'W',
        SymbolType::WeakLocal => 'w',
        SymbolType::Absolute => 'A',
        SymbolType::Unknown(c) => c,
    }
}

/// Code symbols: text and weak, global or local.
pub open spec fn symbol_type_is_code(t: SymbolType) -> bool {
    t == SymbolType::Text || t == SymbolType::TextLocal || t == SymbolType::Weak || t
        == SymbolType::WeakLocal
}

/// Data symbols: data, BSS and read-only data, global or local.
pub open spec fn symbol_type_is_data(t: SymbolType) -> bool {
    t == SymbolType::Data || t == SymbolType::DataLocal || t == SymbolType::Bss || t
        == SymbolType::BssLocal || t == SymbolType::Rodata || t == SymbolType::RodataLocal
}

/// Global symbols: the upper-case kinds and absolute symbols.
pub open spec fn symbol_type_is_global(t: SymbolType) -> bool {
    t == SymbolType::Text || t == SymbolType::Data || t == SymbolType::Bss || t
        == SymbolType::Rodata || t == SymbolType::Weak || t == SymbolType::Absolute
}

impl SymbolType {
    /// Parse from the single-character type used in kallsyms.
    pub fn from_char(c: char) -> (r: Self)
        ensures
            r == symbol_type_of(c),
    {
        match c {
            'T' => SymbolType::Text,
            't' => SymbolType::TextLocal,
            'D' => SymbolType::Data,
            'd' => SymbolType::DataLocal,
            'B' => SymbolType::Bss,
            'b' => SymbolType::BssLocal,
            'R' => SymbolType::Rodata,
            'r' => SymbolType::RodataLocal,
            'W' | 'V' => SymbolType::Weak,
            'w' | 'v' => SymbolType::WeakLocal,
            'A' => SymbolType::Absolute,
            _ => SymbolType::Unknown(c),
        }
    }

    /// Convert back to character representation.
    pub fn to_char(self) -> (r: char)
        ensures
            r == symbol_type_char(self),
    {
        match self {
            SymbolType::Text => 'T',
            SymbolType::TextLocal => 't',
            SymbolType::Data => 'D',
            SymbolType::DataLocal => 'd',
            SymbolType::Bss => 'B',
            SymbolType::BssLocal => 'b',
            SymbolType::Rodata => 'R',
            SymbolType::RodataLocal => 'r',
            SymbolType::Weak => 'W',
            SymbolType::WeakLocal => 'w',
            SymbolType::Absolute => 'A',
            SymbolType::Unknown(c) => c,
        }
    }

    /// Check if this symbol is in a code section.
    pub fn is_code(&self) -> (r: bool)
        ensures
            r == symbol_type_is_code(*self),
    {
        match self {
            SymbolType::Text | SymbolType::TextLocal | SymbolType::Weak | SymbolType::WeakLocal => true,
            _ => false,
        }
    }

    /// Check if this symbol is in a data section.
    pub fn is_data(&self) -> (r: bool)
        ensures
            r == symbol_type_is_data(*self),
    {
        match self {
            SymbolType::Data | SymbolType::DataLocal | SymbolType::Bss | SymbolType::BssLocal
            | SymbolType::Rodata | SymbolType::RodataLocal => true,
            _ => false,
        }
    }

    /// Check if this is a global symbol.
    pub fn is_global(&self) -> (r: bool)
        ensures
            r == symbol_type_is_global(*self),
    {
        match self {
            SymbolType::Text | SymbolType::Data | SymbolType::Bss | SymbolType::Rodata
            | SymbolType::Weak | SymbolType::Absolute => true,
            _ => false,
        }
    }

    /// The displayed form of the type: its character.
    pub fn to_display_string(&self) -> (r: String)
        ensures
            r@ == seq![symbol_type_char(*self)],
    {
        let mut s = String::new();
        crate::text::push_char(&mut s, self.to_char());
        s
    }
}

/// Reading the character of a parsed type gives back the character,
/// except for `V` and `v`, which read back as `W` and `w`.
pub proof fn lemma_symbol_type_char_roundtrip(c: char)
    ensures
        c != 'V' && c != 'v' ==> symbol_type_char(symbol_type_of(c)) == c,
        c == 'V' ==> symbol_type_char(symbol_type_of(c)) == 'W',
        c == 'v' ==> symbol_type_char(symbol_type_of(c)) == 'w',
{
}

/// Parsing the character of a type gives back the type, for every type
/// except an `Unknown` that holds a character with a type of its own.
pub proof fn lemma_symbol_type_parse_roundtrip(t: SymbolType)
    ensures
        (t matches SymbolType::Unknown(c) ==> symbol_type_of(c) is Unknown) ==> symbol_type_of(
            symbol_type_char(t),
        ) == t,
{
}

/// No symbol type is both code and data.
pub proof fn lemma_code_data_disjoint(t: SymbolType)
    ensures
        !(symbol_type_is_code(t) && symbol_type_is_data(t)),
{
}

/// A recovered kernel symbol.
#[derive(Debug, Clone)]
pub struct KernelSymbol {
    /// Symbol virtual address.
    pub address: u64,
    /// Symbol name (decompressed).
    pub name: String,
    /// Symbol type.
    pub sym_type: SymbolType,
    /// Size in bytes (distance to the next symbol).
    pub size: Option<u64>,
}

impl View for KernelSymbol {
    type V = (u64, Seq<char>, SymbolType, Option<u64>);

    open spec fn view(&self) -> (u64, Seq<char>, SymbolType, Option<u64>) {
        (self.address, self.name@, self.sym_type, self.size)
    }
}

/// The line a symbol displays: 16 hex digits of address, type, name.
pub open spec fn symbol_line(s: KernelSymbol) -> Seq<char> {
    crate::text::hex16_text(s.address as nat) + seq![' ', symbol_type_char(s.sym_type), ' ']
        + s.name@
}

impl KernelSymbol {
    /// Check if this symbol is likely a function.
    pub fn is_function(&self) -> (r: bool)
        ensures
            r == symbol_type_is_code(self.sym_type),
    {
        self.sym_type.is_code()
    }

    /// Check if this symbol is likely a variable.
    pub fn is_variable(&self) -> (r: bool)
        ensures
            r == symbol_type_is_data(self.sym_type),
    {
        self.sym_type.is_data()
    }

    /// The displayed form: `{address:016x} {type} {name}`.
    pub fn to_display_string(&self) -> (r: String)
        ensures
            r@ == symbol_line(*self),
    {
        let mut s = String::new();
        crate::text::push_hex16(&mut s, self.address);
        crate::text::push_char(&mut s, ' ');
        crate::text::push_char(&mut s, self.sym_type.to_char());
        crate::text::push_char(&mut s, ' ');
        push_str(&mut s, self.name.as_str());
        assert(s@ =~= symbol_line(*self));
        s
    }

    /// A copy of this symbol.
    pub fn duplicate(&self) -> (r: KernelSymbol)
        ensures
            r == *self,
    {
        KernelSymbol {
            address: self.address,
            name: self.name.clone(),
            sym_type: self.sym_type,
            size: self.size,
        }
    }
}

/// Complete result of kallsyms extraction.
#[derive(Debug, Clone)]
pub struct KallsymsResult {
    /// All recovered symbols.
    pub symbols: Vec<KernelSymbol>,
    /// Detected kernel base address.
    pub kernel_base: u64,
    /// Detected architecture.
    pub arch: KernelArch,
    /// Number of symbols found.
    pub symbol_count: usize,
}

impl KallsymsResult {
    /// Find the first symbol whose name is exactly `name`.
    pub fn find_by_name(&self, name: &str) -> (r: Option<&KernelSymbol>)
        ensures
            match r {
                Some(s) => exists|i: int|
                    0 <= i < self.symbols@.len() && self.symbols@[i] == *s && s.name@ == name@
                        && forall|j: int| 0 <= j < i ==> self.symbols@[j].name@ != name@,
                None => forall|j: int|
                    0 <= j < self.symbols@.len() ==> self.symbols@[j].name@ != name@,
            },
    {
        let mut i: usize = 0;
        while i < self.symbols.len()
            invariant
                i <= self.symbols@.len(),
                forall|j: int| 0 <= j < i ==> self.symbols@[j].name@ != name@,
            decreases self.symbols.len() - i,
        {
            let s = &self.symbols[i];
            if crate::text::str_eq(s.name.as_str(), name) {
                return Some(s);
            }
            i = i + 1;
        }
        None
    }

    /// Find the symbols whose name contains `query`, in order.
    pub fn search(&self, query: &str) -> (r: Vec<&KernelSymbol>)
        ensures
            r@.len() <= self.symbols@.len(),
            exists|idx: Seq<int>|
                #![trigger idx.len()]
                {
                    &&& idx.len() == r@.len()
                    &&& forall|k: int| 0 <= k < idx.len() ==> 0 <= #[trigger] idx[k] < self.symbols@.len()
                    &&& forall|k: int, l: int| 0 <= k < l < idx.len() ==> idx[k] < idx[l]
                    &&& forall|k: int| 0 <= k < idx.len() ==> *r@[k] == self.symbols@[idx[k]]
                    &&& forall|j: int| 0 <= j < self.symbols@.len() ==> (
                        crate::text::contains_text(self.symbols@[j].name@, query@)
                        <==> exists|k: int| 0 <= k < idx.len() && idx[k] == j)
                },
    {
        let q = crate::text::chars_of(query);
        let mut out: Vec<&KernelSymbol> = Vec::new();
        let ghost mut idx: Seq<int> = Seq::empty();
        let mut i: usize = 0;
        while i < self.symbols.len()
            invariant
                i <= self.symbols@.len(),
                q@ == query@,
                idx.len() == out@.len(),
                out@.len() <= i,
                forall|k: int| 0 <= k < idx.len() ==> 0 <= #[trigger] idx[k] < i,
                forall|k: int, l: int| 0 <= k < l < idx.len() ==> idx[k] < idx[l],
                forall|k: int| 0 <= k < idx.len() ==> *out@[k] == self.symbols@[idx[k]],
                forall|j: int| 0 <= j < i ==> (
                    crate::text::contains_text(self.symbols@[j].name@, query@)
                    <==> exists|k: int| 0 <= k < idx.len() && idx[k] == j),
            decreases self.symbols.len() - i,
        {
            let s = &self.symbols[i];
            let name = crate::text::chars_of(s.name.as_str());
            let found = crate::text::contains_chars(&name, &q);
            let ghost old_idx = idx;
            if found {
                out.push(s);
                proof {
                    idx = idx.push(i as int);
                    assert(idx[idx.len() - 1] == i);
                }
            }
            proof {
                assert forall|j: int| 0 <= j < i + 1 implies (crate::text::contains_text(
                    self.symbols@[j].name@,
                    query@,
                ) <==> exists|k: int| 0 <= k < idx.len() && idx[k] == j) by {
                    if j < i {
                        if exists|k: int| 0 <= k < old_idx.len() && old_idx[k] == j {
                            let k = choose|k: int| 0 <= k < old_idx.len() && old_idx[k] == j;
                            assert(idx[k] == j);
                        }
                        if exists|k: int| 0 <= k < idx.len() && idx[k] == j {
                            let k = choose|k: int| 0 <= k < idx.len() && idx[k] == j;
                            if k < old_idx.len() {
                                assert(old_idx[k] == j);
                            }
                        }
                    } else {
                        if found {
                            assert(idx[idx.len() - 1] == j);
                        } else {
                            assert forall|k: int| 0 <= k < idx.len() implies idx[k] != j by {
                                assert(old_idx[k] < i);
                            }
                        }
                    }
                }
            }
            i = i + 1;
        }
        proof {
            assert(idx.len() == out@.len());
        }
        out
    }
}

} // verus!
