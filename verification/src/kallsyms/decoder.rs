//! Kallsyms name decompression.
//!
//! Symbol names are stored as sequences of token ids; each token is a byte
//! string in which every byte is again a token id, except for bytes whose
//! token is the byte itself.

use crate::byte_io::{le16, read_u16};
use crate::error::Error;
use crate::kallsyms::types::{
    kallsyms_error_text, symbol_type_of, KallsymsError, KernelSymbol, SymbolType,
};
use crate::text::{dec_text, push_char, push_dec, push_str, text};
use vstd::prelude::*;

verus! {

/// Rust's slices never hold more than `isize::MAX` bytes.
pub open spec fn buffer_len_ok(len: int) -> bool {
    len <= isize::MAX
}

/// Deepest token nesting that is expanded.
pub open spec fn max_token_depth() -> nat {
    128
}

/// The position of the first zero byte at or after `start`, or the end of
/// the data.
pub open spec fn token_end(data: Seq<u8>, start: int) -> int
    decreases data.len() - start,
{
    if start >= data.len() {
        data.len() as int
    } else if data[start] == 0 {
        start
    } else {
        token_end(data, start + 1)
    }
}

/// Whether entry `i` of the token index can be read and points inside the
/// data.
pub open spec fn index_entry_ok(data: Seq<u8>, table_offset: int, index_offset: int, i: int) -> bool {
    &&& index_offset + i * 2 + 2 <= data.len()
    &&& table_offset + le16(data, index_offset + i * 2) <= data.len()
}

/// The token that entry `i` of the token index points to.
pub open spec fn indexed_token(data: Seq<u8>, table_offset: int, index_offset: int, i: int) -> Seq<u8> {
    let start = table_offset + le16(data, index_offset + i * 2);
    data.subrange(start, token_end(data, start))
}

/// `a + b`, or `usize::MAX` when the sum does not fit.
pub open spec fn sat_add(a: int, b: int) -> usize {
    if a + b <= usize::MAX {
        (a + b) as usize
    } else {
        usize::MAX
    }
}

/// A compiled dictionary of byte strings used for decompression.
pub struct TokenTable<'a> {
    tokens: Vec<&'a [u8]>,
}

impl<'a> View for TokenTable<'a> {
    type V = Seq<Seq<u8>>;

    closed spec fn view(&self) -> Seq<Seq<u8>> {
        self.tokens@.map_values(|t: &'a [u8]| t@)
    }
}

/// The characters and the outcome of expanding token `id` at nesting
/// `depth`: the characters produced before any failure, and the id of the
/// token whose expansion went past the depth limit, if one did.
pub open spec fn expansion(t: Seq<Seq<u8>>, id: u8, depth: nat) -> (Seq<char>, Option<u8>)
    decreases (if depth <= max_token_depth() { 129 - depth } else { 0 }), 1nat, 0nat,
{
    if depth > max_token_depth() {
        (Seq::empty(), Some(id))
    } else {
        expansion_of_bytes(t, t[id as int], depth)
    }
}

/// Expansion of the bytes of a token at nesting `depth`, left to right,
/// stopping at the first failure.
pub open spec fn expansion_of_bytes(t: Seq<Seq<u8>>, bytes: Seq<u8>, depth: nat) -> (
    Seq<char>,
    Option<u8>,
)
    decreases (if depth <= max_token_depth() { 129 - depth } else { 0 }), 0nat, bytes.len(),
{
    if bytes.len() == 0 || depth > max_token_depth() {
        (Seq::empty(), None)
    } else {
        let (pre, err) = expansion_of_bytes(t, bytes.drop_last(), depth);
        if err is Some {
            (pre, err)
        } else {
            let b = bytes.last();
            let sub = t[b as int];
            if sub.len() == 1 && sub[0] == b {
                (pre.push(b as char), None)
            } else {
                let (x, e) = expansion(t, b, depth + 1);
                (pre + x, e)
            }
        }
    }
}

/// The error reported when token `id` is nested too deeply.
pub open spec fn is_depth_error(e: Error, id: u8) -> bool {
    e is KallsymsNotFound && e->KallsymsNotFound_0@ == kallsyms_error_text(
        KallsymsError::TokenRecursionLimit { token_id: id as usize, max_depth: 128 },
    )
}

impl<'a> TokenTable<'a> {
    /// The table always holds one token per byte value.
    #[verifier::type_invariant]
    spec fn holds_all_tokens(self) -> bool {
        self.tokens@.len() == 256
    }

    /// Parse the token table and its index.
    ///
    /// Entry `i` of the index is a little-endian `u16` offset into the table;
    /// token `i` runs from there to the next zero byte. An index that runs
    /// past the data is `UnexpectedEof`; an offset that points past the data
    /// is `IndexOutOfBounds`.
    pub fn parse(data: &'a [u8], table_offset: usize, index_offset: usize) -> (r: Result<
        Self,
        Error,
    >)
        ensures
            match r {
                Ok(t) => (forall|i: int|
                    0 <= i < 256 ==> index_entry_ok(
                        data@,
                        table_offset as int,
                        index_offset as int,
                        i,
                    )) && t@.len() == 256 && forall|i: int|
                    0 <= i < 256 ==> #[trigger] t@[i] == indexed_token(
                        data@,
                        table_offset as int,
                        index_offset as int,
                        i,
                    ),
                Err(e) => exists|i: int|
                    0 <= i < 256 && !index_entry_ok(data@, table_offset as int, index_offset as int, i)
                        && (forall|j: int|
                        0 <= j < i ==> index_entry_ok(
                            data@,
                            table_offset as int,
                            index_offset as int,
                            j,
                        )) && e is KallsymsNotFound && (if index_offset + i * 2 + 2 <= data@.len() {
                        e->KallsymsNotFound_0@ == kallsyms_error_text(
                            KallsymsError::IndexOutOfBounds {
                                index: sat_add(table_offset as int, le16(data@, index_offset + i * 2)),
                                max: data@.len() as usize,
                            },
                        )
                    } else {
                        e->KallsymsNotFound_0@ == kallsyms_error_text(
                            KallsymsError::UnexpectedEof { offset: index_offset, needed: 2 },
                        )
                    }),
            },
    {
        let mut tokens: Vec<&'a [u8]> = Vec::new();
        let mut i: usize = 0;
        while i < 256
            invariant
                i <= 256,
                tokens@.len() == i,
                forall|j: int|
                    0 <= j < i ==> index_entry_ok(data@, table_offset as int, index_offset as int, j),
                forall|j: int|
                    0 <= j < i ==> #[trigger] tokens@[j]@ == indexed_token(
                        data@,
                        table_offset as int,
                        index_offset as int,
                        j,
                    ),
            decreases 256 - i,
        {
            let data_len = data.len();
            let entry = if index_offset <= usize::MAX - i * 2 {
                read_u16(data, index_offset + i * 2, true)
            } else {
                None
            };
            let offset_into_table = match entry {
                Some(v) => v,
                None => {
                    assert(!index_entry_ok(data@, table_offset as int, index_offset as int, i as int));
                    return Err(
                        KallsymsError::UnexpectedEof { offset: index_offset, needed: 2 }.into_error(),
                    );
                },
            };
            if table_offset > data.len() || offset_into_table as usize > data.len() - table_offset {
                let index = if table_offset <= usize::MAX - offset_into_table as usize {
                    table_offset + offset_into_table as usize
                } else {
                    usize::MAX
                };
                assert(index == sat_add(table_offset as int, le16(data@, index_offset + i * 2)));
                assert(!index_entry_ok(data@, table_offset as int, index_offset as int, i as int));
                return Err(KallsymsError::IndexOutOfBounds { index, max: data.len() }.into_error());
            }
            let start = table_offset + offset_into_table as usize;
            let mut end = start;
            while end < data.len() && data[end] != 0
                invariant
                    start <= end <= data.len(),
                    token_end(data@, start as int) == token_end(data@, end as int),
                decreases data.len() - end,
            {
                end = end + 1;
            }
            tokens.push(vstd::slice::slice_subrange(data, start, end));
            i = i + 1;
        }
        let t = TokenTable { tokens };
        assert forall|j: int| 0 <= j < 256 implies #[trigger] t@[j] == indexed_token(
            data@,
            table_offset as int,
            index_offset as int,
            j,
        ) by {
            assert(t@[j] == t.tokens@[j]@);
        }
        Ok(t)
    }

    /// Recursively expand token `token_id` into `output`.
    ///
    /// Every byte of the token is expanded as a token in turn, unless its
    /// own token is just that byte, which stands for itself. Expansion
    /// deeper than 128 levels fails with `TokenRecursionLimit`, leaving the
    /// characters produced so far in `output`.
    pub fn expand(&self, token_id: u8, output: &mut String, depth: usize) -> (r: Result<(), Error>)
        ensures
            final(output)@ == old(output)@ + expansion(self@, token_id, depth as nat).0,
            match r {
                Ok(()) => expansion(self@, token_id, depth as nat).1 is None,
                Err(e) => expansion(self@, token_id, depth as nat).1 matches Some(id)
                    && is_depth_error(e, id),
            },
        decreases (if depth <= 128 { 129 - depth } else { 0 }),
    {
        proof {
            use_type_invariant(self);
        }
        if depth > 128 {
            assert(old(output)@ + Seq::<char>::empty() =~= output@);
            return Err(
                KallsymsError::TokenRecursionLimit {
                    token_id: token_id as usize,
                    max_depth: 128,
                }.into_error(),
            );
        }
        let token: &[u8] = self.tokens[token_id as usize];
        let ghost t = self@;
        let ghost start = output@;
        assert(token@ == t[token_id as int]);
        let mut j: usize = 0;
        while j < token.len()
            invariant
                self@ == t,
                start == old(output)@,
                t.len() == 256,
                depth <= 128,
                j <= token@.len(),
                token@ == t[token_id as int],
                expansion_of_bytes(t, token@.take(j as int), depth as nat).1 is None,
                output@ == start + expansion_of_bytes(t, token@.take(j as int), depth as nat).0,
            decreases token.len() - j,
        {
            let byte = token[j];
            proof {
                use_type_invariant(self);
            }
            let sub: &[u8] = self.tokens[byte as usize];
            let ghost pre = token@.take(j as int);
            assert(token@.take(j + 1).drop_last() =~= pre);
            assert(token@.take(j + 1).last() == byte);
            assert(sub@ == t[byte as int]);
            if sub.len() == 1 && sub[0] == byte {
                push_char(output, byte as char);
                assert(output@ =~= start + expansion_of_bytes(
                    t,
                    token@.take(j + 1),
                    depth as nat,
                ).0);
            } else {
                let res = self.expand(byte, output, depth + 1);
                assert(output@ =~= start + expansion_of_bytes(
                    t,
                    token@.take(j + 1),
                    depth as nat,
                ).0);
                match res {
                    Ok(()) => {},
                    Err(e) => {
                        proof {
                            lemma_expansion_of_bytes_error_prefix(
                                t,
                                token@,
                                (j + 1) as int,
                                depth as nat,
                            );
                            assert(expansion_of_bytes(t, token@.take(j + 1), depth as nat).1
                                == expansion(t, byte, (depth + 1) as nat).1);
                            assert(expansion(t, token_id, depth as nat) == expansion_of_bytes(
                                t,
                                token@,
                                depth as nat,
                            ));
                        }
                        return Err(e);
                    },
                }
            }
            j = j + 1;
        }
        assert(token@.take(j as int) =~= token@);
        Ok(())
    }

    /// Get the number of tokens in the table.
    pub fn len(&self) -> (r: usize)
        ensures
            r == self@.len(),
            r == 256,
    {
        proof {
            use_type_invariant(self);
        }
        self.tokens.len()
    }
}

/// Once a prefix of a token's bytes fails to expand, the whole token fails
/// the same way with the same characters.
pub proof fn lemma_expansion_of_bytes_error_prefix(t: Seq<Seq<u8>>, bytes: Seq<u8>, k: int, depth: nat)
    requires
        0 <= k <= bytes.len(),
        depth <= max_token_depth(),
        expansion_of_bytes(t, bytes.take(k), depth).1 is Some,
    ensures
        expansion_of_bytes(t, bytes, depth) == expansion_of_bytes(t, bytes.take(k), depth),
    decreases bytes.len() - k,
{
    if k < bytes.len() {
        assert(bytes.take(k + 1).drop_last() =~= bytes.take(k));
        lemma_expansion_of_bytes_error_prefix(t, bytes, k + 1, depth);
    } else {
        assert(bytes.take(k) =~= bytes);
    }
}

/// Where the name record after `count` records from `start` begins, or
/// the record that stopped the walk: `Err((i, true))` when record `i` has a
/// zero length, `Err((i, false))` when it starts past the data.
pub open spec fn seek_name(data: Seq<u8>, start: int, count: nat) -> Result<int, (int, bool)>
    decreases count,
{
    if count == 0 {
        Ok(start)
    } else {
        match seek_name(data, start, (count - 1) as nat) {
            Ok(p) => if p >= data.len() {
                Err(((count - 1) as int, false))
            } else if data[p] == 0 {
                Err(((count - 1) as int, true))
            } else {
                Ok(p + 1 + data[p])
            },
            Err(x) => Err(x),
        }
    }
}

/// The first character of `s`, or `?` when it is empty.
pub open spec fn first_or_question(s: Seq<char>) -> char {
    if s.len() > 0 {
        s[0]
    } else {
        '?'
    }
}

/// Expansion of a sequence of token ids at depth 0, stopping at the first
/// failure.
pub open spec fn expand_ids(t: Seq<Seq<u8>>, ids: Seq<u8>) -> (Seq<char>, Option<u8>)
    decreases ids.len(),
{
    if ids.len() == 0 {
        (Seq::empty(), None)
    } else {
        let (pre, err) = expand_ids(t, ids.drop_last());
        if err is Some {
            (pre, err)
        } else {
            let (x, e) = expansion(t, ids.last(), 0);
            (pre + x, e)
        }
    }
}

/// Expansion of a sequence of token ids at depth 0 that goes on after a
/// failure, marking each failed token with `<?>`.
pub open spec fn lenient_name(t: Seq<Seq<u8>>, ids: Seq<u8>) -> Seq<char>
    decreases ids.len(),
{
    if ids.len() == 0 {
        Seq::empty()
    } else {
        let (x, e) = expansion(t, ids.last(), 0);
        lenient_name(t, ids.drop_last()) + x + (if e is Some {
            "<?>"@
        } else {
            Seq::empty()
        })
    }
}

/// The text of an `InvalidSymbolName` error.
pub open spec fn invalid_name_text(index: int, reason: Seq<char>) -> Seq<char> {
    "Invalid symbol name at index "@ + dec_text(index as nat) + ": "@ + reason
}

/// What decoding symbol `index` of the names table at `names_offset` gives:
/// its name and type, or the text of the error.
pub open spec fn decoded_name(data: Seq<u8>, names_offset: int, index: int, t: Seq<Seq<u8>>) -> Result<
    (Seq<char>, SymbolType),
    Seq<char>,
> {
    match seek_name(data, names_offset, index as nat) {
        Err((i, false)) => Err(
            kallsyms_error_text(
                KallsymsError::IndexOutOfBounds { index: index as usize, max: i as usize },
            ),
        ),
        Err((i, true)) => Err(
            invalid_name_text(
                index,
                "Found zero-length name at index "@ + dec_text(i as nat) + " while seeking"@,
            ),
        ),
        Ok(p) => if p >= data.len() {
            Err(
                kallsyms_error_text(KallsymsError::UnexpectedEof { offset: p as usize, needed: 1 }),
            )
        } else if data[p] == 0 {
            Err(invalid_name_text(index, "Symbol has zero-length name"@))
        } else if p + 1 + data[p] > data.len() {
            Err(
                kallsyms_error_text(
                    KallsymsError::UnexpectedEof {
                        offset: (p + 1) as usize,
                        needed: data[p] as usize,
                    },
                ),
            )
        } else {
            let name = data.subrange(p + 1, p + 1 + data[p]);
            let (ty, ty_err) = expansion(t, name[0], 0);
            match ty_err {
                Some(id) => Err(
                    kallsyms_error_text(
                        KallsymsError::TokenRecursionLimit { token_id: id as usize, max_depth: 128 },
                    ),
                ),
                None => {
                    let (rest, rest_err) = expand_ids(t, name.drop_first());
                    match rest_err {
                        Some(id) => Err(
                            kallsyms_error_text(
                                KallsymsError::TokenRecursionLimit {
                                    token_id: id as usize,
                                    max_depth: 128,
                                },
                            ),
                        ),
                        None => Ok((rest, symbol_type_of(first_or_question(ty)))),
                    }
                },
            }
        },
    }
}

/// Decode the name and type of symbol `index` in the names table at
/// `names_offset`.
///
/// Records are `[len][len token ids]`; the walk to record `index` starts at
/// `names_offset`. The first token of a name is its type character.
pub fn decode_symbol_name(data: &[u8], names_offset: usize, index: usize, tokens: &TokenTable) -> (r:
    Result<(String, SymbolType), Error>)
    requires
        buffer_len_ok(data@.len() as int),
    ensures
        match (r, decoded_name(data@, names_offset as int, index as int, tokens@)) {
            (Ok((name, ty)), Ok((n, t))) => name@ == n && ty == t,
            (Err(e), Err(text)) => e is KallsymsNotFound && e->KallsymsNotFound_0@ == text,
            _ => false,
        },
{
    let t_len = tokens.len();
    let mut current_pos = names_offset;
    let mut i: usize = 0;
    while i < index
        invariant
            buffer_len_ok(data@.len() as int),
            i <= index,
            seek_name(data@, names_offset as int, i as nat) == Ok::<int, (int, bool)>(
                current_pos as int,
            ),
            i > 0 ==> current_pos <= data@.len() + 256,
        decreases index - i,
    {
        if current_pos >= data.len() {
            proof {
                lemma_seek_stops(data@, names_offset as int, i as nat, index as nat);
            }
            return Err(KallsymsError::IndexOutOfBounds { index, max: i }.into_error());
        }
        let len = data[current_pos] as usize;
        if len == 0 {
            let mut reason = text("Found zero-length name at index ");
            push_dec(&mut reason, i as u64);
            push_str(&mut reason, " while seeking");
            proof {
                lemma_seek_stops(data@, names_offset as int, i as nat, index as nat);
            }
            return Err(KallsymsError::InvalidSymbolName { index, reason }.into_error());
        }
        current_pos = current_pos + 1 + len;
        i = i + 1;
    }
    if current_pos >= data.len() {
        return Err(KallsymsError::UnexpectedEof { offset: current_pos, needed: 1 }.into_error());
    }
    let len = data[current_pos] as usize;
    if len == 0 {
        let reason = text("Symbol has zero-length name");
        return Err(KallsymsError::InvalidSymbolName { index, reason }.into_error());
    }
    if len > data.len() - (current_pos + 1) {
        return Err(KallsymsError::UnexpectedEof { offset: current_pos + 1, needed: len }.into_error());
    }
    let name_data = vstd::slice::slice_subrange(data, current_pos + 1, current_pos + 1 + len);
    let mut expanded_name = String::new();
    let type_token_id = name_data[0];
    let mut type_str = String::new();
    match tokens.expand(type_token_id, &mut type_str, 0) {
        Ok(()) => {},
        Err(e) => {
            return Err(e);
        },
    }
    let type_char = first_char_or_question(&type_str);
    let sym_type = SymbolType::from_char(type_char);
    let ghost ids = name_data@.drop_first();
    let mut k: usize = 1;
    #[verifier::loop_isolation(false)]
    while k < name_data.len()
        invariant
            1 <= k <= name_data@.len(),
            ids == name_data@.drop_first(),
            expand_ids(tokens@, ids.take(k - 1)).1 is None,
            expanded_name@ == expand_ids(tokens@, ids.take(k - 1)).0,
        decreases name_data.len() - k,
    {
        let token_id = name_data[k];
        assert(ids.take(k as int).drop_last() =~= ids.take(k - 1));
        assert(ids.take(k as int).last() == token_id);
        match tokens.expand(token_id, &mut expanded_name, 0) {
            Ok(()) => {},
            Err(e) => {
                proof {
                    assert(expand_ids(tokens@, ids.take(k as int)).1 == expansion(
                        tokens@,
                        token_id,
                        0,
                    ).1);
                    lemma_expand_ids_error_prefix(tokens@, ids, k as int);
                }
                return Err(e);
            },
        }
        k = k + 1;
    }
    assert(ids.take(k - 1) =~= ids);
    Ok((expanded_name, sym_type))
}

/// Once a prefix of the ids fails to expand, the whole sequence fails the
/// same way.
pub proof fn lemma_expand_ids_error_prefix(t: Seq<Seq<u8>>, ids: Seq<u8>, k: int)
    requires
        0 <= k <= ids.len(),
        expand_ids(t, ids.take(k)).1 is Some,
    ensures
        expand_ids(t, ids) == expand_ids(t, ids.take(k)),
    decreases ids.len() - k,
{
    if k < ids.len() {
        assert(ids.take(k + 1).drop_last() =~= ids.take(k));
        lemma_expand_ids_error_prefix(t, ids, k + 1);
    } else {
        assert(ids.take(k) =~= ids);
    }
}

/// A walk that stops at record `i` stops there for every longer walk.
pub proof fn lemma_seek_stops(data: Seq<u8>, start: int, i: nat, n: nat)
    requires
        i < n,
        seek_name(data, start, i) matches Ok(p) && (p >= data.len() || data[p] == 0),
    ensures
        seek_name(data, start, n) == seek_name(data, start, i + 1),
    decreases n - i,
{
    if n > i + 1 {
        lemma_seek_stops(data, start, i, (n - 1) as nat);
    }
}

/// The first character of `s`, or `?` when `s` is empty.
fn first_char_or_question(s: &String) -> (c: char)
    ensures
        c == first_or_question(s@),
{
    let chars = crate::text::chars_of(s.as_str());
    if chars.len() > 0 {
        chars[0]
    } else {
        '?'
    }
}

/// A decoded symbol: address, name, type and size.
pub type SymbolView = (u64, Seq<char>, SymbolType, Option<u64>);

/// `a - b`, or 0 when `b` is larger.
pub open spec fn sat_sub(a: u64, b: u64) -> u64 {
    if a >= b {
        (a - b) as u64
    } else {
        0
    }
}

/// The symbol whose name record starts at `ptr` (a record of non-zero
/// length that fits in the data), with address `addrs[idx]`.
///
/// A token that fails to expand leaves `?` in the type and `<?>` in the
/// name; the size is the distance to the next address, if there is one.
pub open spec fn symbol_at(data: Seq<u8>, addrs: Seq<u64>, t: Seq<Seq<u8>>, idx: int, ptr: int) -> SymbolView {
    let len = data[ptr] as int;
    let name = data.subrange(ptr + 1, ptr + 1 + len);
    let (ty, ty_err) = expansion(t, name[0], 0);
    let type_chars = if ty_err is Some {
        ty.push('?')
    } else {
        ty
    };
    (
        addrs[idx],
        lenient_name(t, name.drop_first()),
        symbol_type_of(first_or_question(type_chars)),
        if idx + 1 < addrs.len() {
            Some(sat_sub(addrs[idx + 1], addrs[idx]))
        } else {
            None
        },
    )
}

/// One step of the symbol walk from symbol `idx` whose record starts at
/// `ptr`: the next symbol, if any, and the position after it.
///
/// Zero-length records are skipped (each one uses up an address); the walk
/// ends when the addresses or the data run out, or a record is truncated.
pub open spec fn iter_step(data: Seq<u8>, addrs: Seq<u64>, t: Seq<Seq<u8>>, idx: int, ptr: int) -> (
    Option<SymbolView>,
    int,
    int,
)
    decreases data.len() - ptr,
{
    if idx >= addrs.len() || ptr >= data.len() || idx < 0 || ptr < 0 {
        (None, idx, ptr)
    } else if data[ptr] == 0 {
        iter_step(data, addrs, t, idx + 1, ptr + 1)
    } else if ptr + 1 + data[ptr] > data.len() {
        (None, idx, ptr)
    } else {
        (Some(symbol_at(data, addrs, t, idx, ptr)), idx + 1, ptr + 1 + data[ptr])
    }
}

/// All symbols the walk yields from symbol `idx` at `ptr`, in order.
pub open spec fn iter_all(data: Seq<u8>, addrs: Seq<u64>, t: Seq<Seq<u8>>, idx: int, ptr: int) -> Seq<
    SymbolView,
>
    decreases data.len() - ptr,
{
    let (s, i2, p2) = iter_step(data, addrs, t, idx, ptr);
    match s {
        None => Seq::empty(),
        Some(v) => if ptr < p2 <= data.len() {
            seq![v] + iter_all(data, addrs, t, i2, p2)
        } else {
            seq![v]
        },
    }
}

/// A lazy walk over kernel symbols: names from the names table, addresses
/// from the addresses table.
pub struct SymbolIterator<'a> {
    data: &'a [u8],
    addresses: &'a [u64],
    _names_offset: usize,
    tokens: &'a TokenTable<'a>,
    current_index: usize,
    current_names_ptr: usize,
}

impl<'a> SymbolIterator<'a> {
    /// The kernel data.
    pub closed spec fn data_view(&self) -> Seq<u8> {
        self.data@
    }

    /// The symbol addresses.
    pub closed spec fn addresses_view(&self) -> Seq<u64> {
        self.addresses@
    }

    /// The tokens names are expanded with.
    pub closed spec fn tokens_view(&self) -> Seq<Seq<u8>> {
        self.tokens@
    }

    /// Index of the next symbol.
    pub closed spec fn index(&self) -> int {
        self.current_index as int
    }

    /// Position of the next name record.
    pub closed spec fn names_ptr(&self) -> int {
        self.current_names_ptr as int
    }

    /// The symbols that are left, in order.
    pub open spec fn remaining(&self) -> Seq<SymbolView> {
        iter_all(self.data_view(), self.addresses_view(), self.tokens_view(), self.index(), self.names_ptr())
    }

    /// Create a new symbol iterator starting at the first symbol.
    pub fn new(data: &'a [u8], addresses: &'a [u64], names_offset: usize, tokens: &'a TokenTable<'a>) -> (r:
        Self)
        ensures
            r.data_view() == data@,
            r.addresses_view() == addresses@,
            r.tokens_view() == tokens@,
            r.index() == 0,
            r.names_ptr() == names_offset,
    {
        SymbolIterator {
            data,
            addresses,
            _names_offset: names_offset,
            tokens,
            current_index: 0,
            current_names_ptr: names_offset,
        }
    }

    /// The next symbol, decoding its name on demand.
    pub fn next(&mut self) -> (r: Option<KernelSymbol>)
        ensures
            final(self).data_view() == old(self).data_view(),
            final(self).addresses_view() == old(self).addresses_view(),
            final(self).tokens_view() == old(self).tokens_view(),
            ({
                let (s, i2, p2) = iter_step(
                    old(self).data_view(),
                    old(self).addresses_view(),
                    old(self).tokens_view(),
                    old(self).index(),
                    old(self).names_ptr(),
                );
                &&& final(self).index() == i2
                &&& final(self).names_ptr() == p2
                &&& match r {
                    Some(sym) => s == Some(sym@),
                    None => s is None,
                }
            }),
    {
        let ghost d = self.data@;
        let ghost a = self.addresses@;
        let ghost t = self.tokens@;
        let ghost step0 = iter_step(d, a, t, self.current_index as int, self.current_names_ptr as int);
        loop
            invariant
                d == self.data@,
                a == self.addresses@,
                t == self.tokens@,
                self.data == old(self).data,
                self.addresses == old(self).addresses,
                self.tokens == old(self).tokens,
                iter_step(d, a, t, self.current_index as int, self.current_names_ptr as int) == step0,
                step0 == iter_step(
                    old(self).data_view(),
                    old(self).addresses_view(),
                    old(self).tokens_view(),
                    old(self).index(),
                    old(self).names_ptr(),
                ),
            decreases d.len() - self.current_names_ptr,
        {
            if self.current_index >= self.addresses.len() || self.current_names_ptr >= self.data.len() {
                return None;
            }
            let address = self.addresses[self.current_index];
            let len = self.data[self.current_names_ptr] as usize;
            if len == 0 {
                self.current_index = self.current_index + 1;
                self.current_names_ptr = self.current_names_ptr + 1;
                continue ;
            }
            if len > self.data.len() - (self.current_names_ptr + 1) {
                return None;
            }
            let ptr = self.current_names_ptr;
            let idx = self.current_index;
            let name_data = vstd::slice::slice_subrange(self.data, ptr + 1, ptr + 1 + len);
            let mut name = String::new();
            let type_token_id = name_data[0];
            let mut type_str = String::new();
            match self.tokens.expand(type_token_id, &mut type_str, 0) {
                Ok(()) => {},
                Err(_) => {
                    push_char(&mut type_str, '?');
                },
            }
            let sym_type = SymbolType::from_char(first_char_or_question(&type_str));
            let ghost ids = name_data@.drop_first();
            let mut k: usize = 1;
            while k < name_data.len()
                invariant
                    1 <= k <= name_data@.len(),
                    ids == name_data@.drop_first(),
                    t == self.tokens@,
                    name@ == lenient_name(t, ids.take(k - 1)),
                decreases name_data.len() - k,
            {
                let token_id = name_data[k];
                assert(ids.take(k as int).drop_last() =~= ids.take(k - 1));
                assert(ids.take(k as int).last() == token_id);
                match self.tokens.expand(token_id, &mut name, 0) {
                    Ok(()) => {
                        assert(name@ =~= lenient_name(t, ids.take(k as int)));
                    },
                    Err(_) => {
                        push_str(&mut name, "<?>");
                        assert(name@ =~= lenient_name(t, ids.take(k as int)));
                    },
                }
                k = k + 1;
            }
            assert(ids.take(k - 1) =~= ids);
            let size = if idx + 1 < self.addresses.len() {
                Some(self.addresses[idx + 1].saturating_sub(address))
            } else {
                None
            };
            self.current_index = idx + 1;
            self.current_names_ptr = ptr + 1 + len;
            let sym = KernelSymbol { address, name, sym_type, size };
            assert(sym@ == symbol_at(d, a, t, idx as int, ptr as int));
            return Some(sym);
        }
    }

    /// All remaining symbols, in order (the iterator is used up).
    pub fn collect_remaining(&mut self) -> (r: Vec<KernelSymbol>)
        ensures
            r@.map_values(|s: KernelSymbol| s@) == old(self).remaining(),
    {
        let ghost all = self.remaining();
        let mut out: Vec<KernelSymbol> = Vec::new();
        loop
            invariant_except_break
                all == out@.map_values(|s: KernelSymbol| s@) + self.remaining(),
            invariant
                self.data_view() == old(self).data_view(),
                self.addresses_view() == old(self).addresses_view(),
                self.tokens_view() == old(self).tokens_view(),
                all == old(self).remaining(),
            ensures
                all == out@.map_values(|s: KernelSymbol| s@),
            decreases self.data_view().len() - self.names_ptr(),
        {
            let ghost before = self.remaining();
            let ghost i0 = self.index();
            let ghost p0 = self.names_ptr();
            proof {
                lemma_step_advances(
                    self.data_view(),
                    self.addresses_view(),
                    self.tokens_view(),
                    i0,
                    p0,
                );
            }
            match self.next() {
                Some(sym) => {
                    let ghost prev = out@.map_values(|s: KernelSymbol| s@);
                    out.push(sym);
                    assert(out@.map_values(|s: KernelSymbol| s@) =~= prev.push(sym@));
                    assert(before =~= seq![sym@] + self.remaining());
                    assert(all =~= out@.map_values(|s: KernelSymbol| s@) + self.remaining());
                },
                None => {
                    assert(all =~= out@.map_values(|s: KernelSymbol| s@));
                    break;
                },
            }
        }
        out
    }
}

/// A step that yields a symbol moves past its name record.
pub proof fn lemma_step_advances(data: Seq<u8>, addrs: Seq<u64>, t: Seq<Seq<u8>>, idx: int, ptr: int)
    ensures
        iter_step(data, addrs, t, idx, ptr).0 is Some ==> ptr < iter_step(data, addrs, t, idx, ptr).2
            <= data.len(),
    decreases data.len() - ptr,
{
    if !(idx >= addrs.len() || ptr >= data.len() || idx < 0 || ptr < 0) && data[ptr] == 0 {
        lemma_step_advances(data, addrs, t, idx + 1, ptr + 1);
    }
}


/// The address index of each symbol the walk yields from symbol `idx` at
/// `ptr`, in order.
pub open spec fn iter_indices(data: Seq<u8>, addrs: Seq<u64>, t: Seq<Seq<u8>>, idx: int, ptr: int) -> Seq<
    int,
>
    decreases data.len() - ptr,
{
    let (s, i2, p2) = iter_step(data, addrs, t, idx, ptr);
    match s {
        None => Seq::empty(),
        Some(_) => if ptr < p2 <= data.len() {
            seq![i2 - 1] + iter_indices(data, addrs, t, i2, p2)
        } else {
            seq![i2 - 1]
        },
    }
}

/// What one step does: the index never goes back; a yielded symbol is the
/// one at index `i2 - 1`, at or after `idx`, with that address and the size
/// to the next address; a step that yields nothing stops where a further
/// step yields nothing again, in the same place.
proof fn lemma_step_facts(data: Seq<u8>, addrs: Seq<u64>, t: Seq<Seq<u8>>, idx: int, ptr: int)
    ensures
        ({
            let (s, i2, p2) = iter_step(data, addrs, t, idx, ptr);
            &&& i2 >= idx
            &&& s matches Some(v) ==> {
                &&& 0 <= idx <= i2 - 1 < addrs.len()
                &&& v.0 == addrs[i2 - 1]
                &&& v.3 == (if i2 < addrs.len() {
                    Some(sat_sub(addrs[i2], addrs[i2 - 1]))
                } else {
                    None
                })
            }
            &&& s is None ==> iter_step(data, addrs, t, i2, p2) == (None::<SymbolView>, i2, p2)
        }),
    decreases data.len() - ptr,
{
    if !(idx >= addrs.len() || ptr >= data.len() || idx < 0 || ptr < 0) && data[ptr] == 0 {
        lemma_step_facts(data, addrs, t, idx + 1, ptr + 1);
    }
}

/// The symbol walk, as successive `next` calls make it from symbol `idx`
/// at `ptr`: a call that yields a symbol leaves the rest of the walk to
/// the next call, and once a call yields nothing every further call yields
/// nothing. The symbols yielded are at strictly increasing address
/// indices, from `idx` on and below the number of addresses (so there are
/// no more symbols than addresses); each has the address at its index and,
/// as size, the distance to the next address (none for the last).
pub proof fn law_symbol_walk(data: Seq<u8>, addrs: Seq<u64>, t: Seq<Seq<u8>>, idx: int, ptr: int)
    ensures
        ({
            let (s, i2, p2) = iter_step(data, addrs, t, idx, ptr);
            &&& s matches Some(v) ==> iter_all(data, addrs, t, idx, ptr) == seq![v] + iter_all(
                data,
                addrs,
                t,
                i2,
                p2,
            )
            &&& s is None ==> iter_all(data, addrs, t, idx, ptr) == Seq::<SymbolView>::empty()
                && iter_step(data, addrs, t, i2, p2) == (None::<SymbolView>, i2, p2)
        }),
        ({
            let v = iter_all(data, addrs, t, idx, ptr);
            let ix = iter_indices(data, addrs, t, idx, ptr);
            &&& ix.len() == v.len()
            &&& v.len() == 0 || v.len() <= addrs.len() - idx
            &&& forall|j: int|
                0 <= j < v.len() ==> {
                    &&& idx <= #[trigger] ix[j] < addrs.len()
                    &&& v[j].0 == addrs[ix[j]]
                    &&& v[j].3 == (if ix[j] + 1 < addrs.len() {
                        Some(sat_sub(addrs[ix[j] + 1], addrs[ix[j]]))
                    } else {
                        None
                    })
                }
            &&& forall|j: int, k: int| 0 <= j < k < v.len() ==> ix[j] < ix[k]
        }),
    decreases data.len() - ptr,
{
    lemma_step_facts(data, addrs, t, idx, ptr);
    lemma_step_advances(data, addrs, t, idx, ptr);
    let (s, i2, p2) = iter_step(data, addrs, t, idx, ptr);
    match s {
        None => {},
        Some(x) => {
            law_symbol_walk(data, addrs, t, i2, p2);
            let v = iter_all(data, addrs, t, idx, ptr);
            let ix = iter_indices(data, addrs, t, idx, ptr);
            let rv = iter_all(data, addrs, t, i2, p2);
            let rix = iter_indices(data, addrs, t, i2, p2);
            assert(v == seq![x] + rv);
            assert(ix == seq![i2 - 1] + rix);
            assert forall|j: int| 0 <= j < v.len() implies {
                &&& idx <= #[trigger] ix[j] < addrs.len()
                &&& v[j].0 == addrs[ix[j]]
                &&& v[j].3 == (if ix[j] + 1 < addrs.len() {
                    Some(sat_sub(addrs[ix[j] + 1], addrs[ix[j]]))
                } else {
                    None
                })
            } by {
                if j > 0 {
                    assert(ix[j] == rix[j - 1]);
                    assert(v[j] == rv[j - 1]);
                }
            }
            assert forall|j: int, k: int| 0 <= j < k < v.len() implies ix[j] < ix[k] by {
                assert(ix[k] == rix[k - 1]);
                if j > 0 {
                    assert(ix[j] == rix[j - 1]);
                }
            }
        },
    }
}

} // verus!
