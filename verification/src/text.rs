//! Building text: characters, decimal and hexadecimal numbers.

use vstd::prelude::*;
use vstd::string::*;
use vstd::std_specs::iter::IteratorSpec;

verus! {

/// The character of a decimal or hexadecimal digit (lower case).
pub open spec fn digit_char(d: nat) -> char {
    if d < 10 {
        (48 + d) as char
    } else {
        (87 + d) as char
    }
}

/// Decimal text of `n`, as `{}` prints it.
pub open spec fn dec_text(n: nat) -> Seq<char>
    decreases n,
{
    if n < 10 {
        seq![digit_char(n)]
    } else {
        dec_text(n / 10).push(digit_char(n % 10))
    }
}

/// Lower-case hexadecimal text of `n` without prefix, as `{:x}` prints it.
pub open spec fn hex_text(n: nat) -> Seq<char>
    decreases n,
{
    if n < 16 {
        seq![digit_char(n)]
    } else {
        hex_text(n / 16).push(digit_char(n % 16))
    }
}

/// Hexadecimal text with the `0x` prefix, as `{:#x}` prints it.
pub open spec fn alt_hex_text(n: nat) -> Seq<char> {
    seq!['0', 'x'] + hex_text(n)
}

/// `count` copies of the character `c`.
pub open spec fn repeat_char(c: char, count: nat) -> Seq<char>
    decreases count,
{
    if count == 0 {
        Seq::empty()
    } else {
        repeat_char(c, (count - 1) as nat).push(c)
    }
}

/// Hexadecimal text zero-padded to 16 digits, as `{:016x}` prints it.
pub open spec fn hex16_text(n: nat) -> Seq<char> {
    let h = hex_text(n);
    if h.len() < 16 {
        repeat_char('0', (16 - h.len()) as nat) + h
    } else {
        h
    }
}

/// Appends one character to a `String` with `String::push`.
#[verifier::external_body]
pub(crate) fn push_char(s: &mut String, c: char)
    ensures
        final(s)@ == old(s)@.push(c),
{
    s.push(c);
}

/// Appends the text of `other` to `s`.
pub fn push_str(s: &mut String, other: &str)
    ensures
        final(s)@ == old(s)@ + other@,
{
    s.append(other);
}

/// A new `String` holding the text of `lit`.
pub fn text(lit: &str) -> (r: String)
    ensures
        r@ == lit@,
{
    String::from_str(lit)
}

/// The digit character of `d` (below 16).
pub fn digit(d: u64) -> (c: char)
    requires
        d < 16,
    ensures
        c == digit_char(d as nat),
{
    if d < 10 {
        ((48 + d) as u8) as char
    } else {
        ((87 + d) as u8) as char
    }
}

/// Appends the decimal text of `n`.
pub fn push_dec(s: &mut String, n: u64)
    ensures
        final(s)@ == old(s)@ + dec_text(n as nat),
    decreases n,
{
    if n >= 10 {
        push_dec(s, n / 10);
    }
    let ghost mid = s@;
    push_char(s, digit(n % 10));
    proof {
        if n < 10 {
            assert(n % 10 == n);
        }
        assert(old(s)@ + dec_text(n as nat) =~= s@);
    }
}

/// Appends the lower-case hexadecimal text of `n` (no prefix).
pub fn push_hex(s: &mut String, n: u64)
    ensures
        final(s)@ == old(s)@ + hex_text(n as nat),
    decreases n,
{
    if n >= 16 {
        push_hex(s, n / 16);
    }
    push_char(s, digit(n % 16));
    proof {
        if n < 16 {
            assert(n % 16 == n);
        }
        assert(old(s)@ + hex_text(n as nat) =~= s@);
    }
}

/// Appends `n` as `{:#x}` prints it.
pub fn push_alt_hex(s: &mut String, n: u64)
    ensures
        final(s)@ == old(s)@ + alt_hex_text(n as nat),
{
    push_char(s, '0');
    push_char(s, 'x');
    push_hex(s, n);
    assert(old(s)@ + alt_hex_text(n as nat) =~= s@);
}

/// Number of hexadecimal digits of `n`.
pub open spec fn hex_len(n: nat) -> nat {
    hex_text(n).len()
}

proof fn lemma_hex_len_bound(n: nat)
    requires
        n < 0x1_0000_0000_0000_0000,
    ensures
        1 <= hex_text(n).len() <= 16,
{
    reveal_with_fuel(pow16, 17);
    assert(pow16(16) == 0x1_0000_0000_0000_0000);
    lemma_hex_len_small_k(n, 15);
    lemma_hex_len_pos(n);
}

proof fn lemma_hex_len_pos(n: nat)
    ensures
        1 <= hex_text(n).len(),
    decreases n,
{
    if n >= 16 {
        lemma_hex_len_pos(n / 16);
    }
}

/// `hex_text(n)` has at most `k + 1` digits when `n < 16^(k+1)`.
proof fn lemma_hex_len_small_k(n: nat, k: nat)
    requires
        n < pow16(k + 1),
    ensures
        hex_text(n).len() <= k + 1,
    decreases k,
{
    reveal_with_fuel(pow16, 2);
    if n >= 16 {
        if k == 0 {
            assert(false);
        } else {
            assert(pow16(k + 1) == 16 * pow16(k));
            assert(n / 16 < pow16(k)) by (nonlinear_arith)
                requires
                    n < 16 * pow16(k),
            ;
            lemma_hex_len_small_k(n / 16, (k - 1) as nat);
        }
    }
}

/// `16^k`.
pub open spec fn pow16(k: nat) -> nat
    decreases k,
{
    if k == 0 {
        1
    } else {
        16 * pow16((k - 1) as nat)
    }
}

/// Appends `n` as `{:016x}` prints it.
pub fn push_hex16(s: &mut String, n: u64)
    ensures
        final(s)@ == old(s)@ + hex16_text(n as nat),
{
    let mut digits: String = String::new();
    push_hex(&mut digits, n);
    let ghost h = hex_text(n as nat);
    assert(digits@ == h);
    proof {
        lemma_hex_len_bound(n as nat);
    }
    let hl = hex_count(n);
    let mut pad: usize = 0;
    let ghost start = s@;
    while hl + pad < 16
        invariant
            hl == h.len(),
            hl <= 16,
            hl + pad <= 16,
            s@ == start + repeat_char('0', pad as nat),
        decreases 16 - hl - pad,
    {
        push_char(s, '0');
        pad = pad + 1;
    }
    push_str(s, digits.as_str());
    proof {
        if h.len() >= 16 {
            assert(pad == 0);
            assert(repeat_char('0', 0) =~= Seq::<char>::empty());
        }
        assert(start + hex16_text(n as nat) =~= s@);
    }
}

/// Number of hexadecimal digits of `n`.
fn hex_count(n: u64) -> (r: usize)
    ensures
        r == hex_text(n as nat).len(),
        r <= 16,
    decreases n,
{
    proof {
        lemma_hex_len_bound(n as nat);
    }
    if n >= 16 {
        1 + hex_count(n / 16)
    } else {
        1
    }
}

/// Whether two string slices hold the same text (`str`'s `==`).
#[verifier::external_body]
pub(crate) fn str_eq(a: &str, b: &str) -> (r: bool)
    ensures
        r == (a@ == b@),
{
    a == b
}

/// Appends the characters of `chars` to `s`.
pub fn push_chars(s: &mut String, chars: &Vec<char>)
    ensures
        final(s)@ == old(s)@ + chars@,
{
    let ghost start = s@;
    let mut i: usize = 0;
    while i < chars.len()
        invariant
            i <= chars.len(),
            s@ == start + chars@.subrange(0, i as int),
        decreases chars.len() - i,
    {
        push_char(s, chars[i]);
        i = i + 1;
        assert(start + chars@.subrange(0, i as int) =~= s@);
    }
    assert(chars@.subrange(0, i as int) =~= chars@);
}

/// A `String` holding exactly the characters of `chars`.
pub fn string_of_chars(chars: &Vec<char>) -> (r: String)
    ensures
        r@ == chars@,
{
    let mut s = String::new();
    push_chars(&mut s, chars);
    assert(Seq::<char>::empty() + chars@ =~= chars@);
    s
}

/// The characters of a string slice, in order.
pub fn chars_of(s: &str) -> (r: Vec<char>)
    ensures
        r@ == s@,
{
    broadcast use vstd::string::group_string_axioms;

    let mut it = s.chars();
    let mut out: Vec<char> = Vec::new();
    loop
        invariant
            it.obeys_prophetic_iter_laws(),
            it.remaining() == s@.skip(out.len() as int),
            out@ == s@.take(out.len() as int),
            out.len() <= s@.len(),
        ensures
            out@ == s@,
        decreases s@.len() - out.len(),
    {
        let ghost before = it;
        match it.next() {
            Some(c) => {
                proof {
                    assert(before.remaining().len() > 0);
                }
                out.push(c);
                assert(s@.take(out.len() as int) =~= s@.take(out.len() - 1).push(c));
                assert(s@.skip(out.len() as int) =~= s@.skip(out.len() - 1).drop_first());
            },
            None => {
                assert(s@.skip(out.len() as int).len() == 0);
                assert(s@.take(out.len() as int) =~= s@);
                break;
            },
        }
    }
    out
}

/// Whether `needle` occurs in `hay` starting at `i`.
pub open spec fn occurs_at(hay: Seq<char>, needle: Seq<char>, i: int) -> bool {
    0 <= i && i + needle.len() <= hay.len() && hay.subrange(i, i + needle.len()) == needle
}

/// Whether `needle` occurs anywhere in `hay` (`str::contains`).
pub open spec fn contains_text(hay: Seq<char>, needle: Seq<char>) -> bool {
    exists|i: int| occurs_at(hay, needle, i)
}

/// Whether `needle` occurs in `hay` at position `i` (exec form).
fn matches_at(hay: &Vec<char>, needle: &Vec<char>, i: usize) -> (r: bool)
    requires
        i + needle.len() <= hay.len(),
    ensures
        r == occurs_at(hay@, needle@, i as int),
{
    let mut j: usize = 0;
    while j < needle.len()
        invariant
            i + needle.len() <= hay.len(),
            j <= needle.len(),
            forall|k: int| 0 <= k < j ==> hay@[i + k] == needle@[k],
        decreases needle.len() - j,
    {
        if hay[i + j] != needle[j] {
            assert(hay@.subrange(i as int, i + needle.len())[j as int] != needle@[j as int]);
            return false;
        }
        j = j + 1;
    }
    assert(hay@.subrange(i as int, i + needle.len()) =~= needle@);
    true
}

/// Whether `needle` occurs in `hay`.
pub fn contains_chars(hay: &Vec<char>, needle: &Vec<char>) -> (r: bool)
    ensures
        r == contains_text(hay@, needle@),
{
    if needle.len() > hay.len() {
        return false;
    }
    let last = hay.len() - needle.len();
    let mut i: usize = 0;
    loop
        invariant
            last == hay.len() - needle.len(),
            i <= last,
            forall|k: int| 0 <= k < i ==> !occurs_at(hay@, needle@, k),
        decreases last - i,
    {
        if matches_at(hay, needle, i) {
            return true;
        }
        if i == last {
            assert forall|k: int| !occurs_at(hay@, needle@, k) by {
                if 0 <= k && k + needle@.len() <= hay@.len() {
                    assert(k <= last);
                }
            }
            return false;
        }
        i = i + 1;
    }
}

/// Whether `hay` begins with `prefix` (`str::starts_with`).
pub open spec fn starts_with_text(hay: Seq<char>, prefix: Seq<char>) -> bool {
    occurs_at(hay, prefix, 0)
}

/// Whether `hay` begins with `prefix`.
pub fn starts_with_chars(hay: &Vec<char>, prefix: &Vec<char>) -> (r: bool)
    ensures
        r == starts_with_text(hay@, prefix@),
{
    if prefix.len() > hay.len() {
        false
    } else {
        matches_at(hay, prefix, 0)
    }
}

/// The bytes of `s` in decimal, separated by `", "`.
pub open spec fn byte_list_items(s: Seq<u8>) -> Seq<char>
    decreases s.len(),
{
    if s.len() == 0 {
        Seq::empty()
    } else if s.len() == 1 {
        dec_text(s[0] as nat)
    } else {
        byte_list_items(s.drop_last()) + ", "@ + dec_text(s.last() as nat)
    }
}

/// A byte slice as `{:?}` prints it: `[1, 2, 3]`.
pub open spec fn byte_list_text(s: Seq<u8>) -> Seq<char> {
    "["@ + byte_list_items(s) + "]"@
}

/// Appends `bytes` as `{:?}` prints a byte slice.
pub fn push_byte_list(s: &mut String, bytes: &[u8])
    ensures
        final(s)@ == old(s)@ + byte_list_text(bytes@),
{
    let ghost start = s@;
    push_str(s, "[");
    let mut i: usize = 0;
    while i < bytes.len()
        invariant
            i <= bytes@.len(),
            s@ == start + "["@ + byte_list_items(bytes@.take(i as int)),
        decreases bytes.len() - i,
    {
        let ghost prev = s@;
        if i > 0 {
            push_str(s, ", ");
        }
        push_dec(s, bytes[i] as u64);
        proof {
            let t = bytes@.take(i + 1);
            assert(t.drop_last() =~= bytes@.take(i as int));
            assert(t.last() == bytes@[i as int]);
            if i == 0 {
                assert(byte_list_items(bytes@.take(0)) =~= Seq::<char>::empty());
            }
        }
        i = i + 1;
        assert(s@ =~= start + "["@ + byte_list_items(bytes@.take(i as int)));
    }
    assert(bytes@.take(i as int) =~= bytes@);
    push_str(s, "]");
    assert(s@ =~= old(s)@ + byte_list_text(bytes@));
}

/// The text `String::from_utf8_lossy` makes of `bytes`.
pub uninterp spec fn utf8_lossy_text(bytes: Seq<u8>) -> Seq<char>;

/// `String::from_utf8_lossy(bytes)`, owned.
///
/// Claimed of std: the text depends on the bytes alone, and bytes that are
/// all ASCII (valid UTF-8, one character each) are kept as they are. What
/// invalid sequences become (U+FFFD) is left unsaid.
#[verifier::external_body]
pub(crate) fn utf8_lossy(bytes: &[u8]) -> (r: String)
    ensures
        r@ == utf8_lossy_text(bytes@),
        (forall|i: int| 0 <= i < bytes@.len() ==> bytes@[i] < 128) ==> r@ == bytes@.map_values(
            |b: u8| b as char,
        ),
{
    String::from_utf8_lossy(bytes).into_owned()
}

} // verus!
