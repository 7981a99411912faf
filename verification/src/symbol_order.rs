//! Ordering of symbol table rows: by address, by name or by type, either
//! way, and a stable sort of row indices by that order.

use crate::row_index::{
    bytes_le, column_in_order, first_difference_at, lemma_prefix_bytes_le, row_at, rows_at,
    same_in_column,
};
use core::cmp::Ordering;
use vstd::prelude::*;
use vstd::utf8::encode_utf8;

verus! {

/// Column to sort by.
#[derive(Debug, Clone, Copy, PartialEq, Eq, Structural)]
pub enum SortColumn {
    /// Sort by virtual address.
    Address,
    /// Sort by symbol name.
    Name,
    /// Sort by symbol type.
    Type,
}

/// A row of the symbol table: address, name and type text.
pub type RowView = (u64, Seq<char>, Seq<char>);

/// Where `a` and `b` first differ at or after `i`: the first index where
/// their bytes differ, or where one of them ends.
pub open spec fn first_difference(a: Seq<u8>, b: Seq<u8>, i: int) -> int
    decreases a.len() - i,
{
    if i < 0 || i >= a.len() || i >= b.len() || a[i] != b[i] {
        i
    } else {
        first_difference(a, b, i + 1)
    }
}

/// Lexicographic order of byte strings (a proper prefix comes first).
pub open spec fn bytes_order(a: Seq<u8>, b: Seq<u8>) -> Ordering {
    let n = first_difference(a, b, 0);
    if n >= a.len() && n >= b.len() {
        Ordering::Equal
    } else if n >= a.len() {
        Ordering::Less
    } else if n >= b.len() {
        Ordering::Greater
    } else if a[n] < b[n] {
        Ordering::Less
    } else {
        Ordering::Greater
    }
}

/// The order of two numbers.
pub open spec fn number_order(a: u64, b: u64) -> Ordering {
    if a < b {
        Ordering::Less
    } else if a > b {
        Ordering::Greater
    } else {
        Ordering::Equal
    }
}

/// The opposite order.
pub open spec fn flipped(o: Ordering) -> Ordering {
    match o {
        Ordering::Less => Ordering::Greater,
        Ordering::Equal => Ordering::Equal,
        Ordering::Greater => Ordering::Less,
    }
}

/// The order of two rows by `column` (text compared by its UTF-8 bytes),
/// flipped when descending.
pub open spec fn row_order(a: RowView, b: RowView, column: SortColumn, ascending: bool) -> Ordering {
    let o = match column {
        SortColumn::Address => number_order(a.0, b.0),
        SortColumn::Name => bytes_order(encode_utf8(a.1), encode_utf8(b.1)),
        SortColumn::Type => bytes_order(encode_utf8(a.2), encode_utf8(b.2)),
    };
    if ascending {
        o
    } else {
        flipped(o)
    }
}

/// Whether `after` is `before` (strictly increasing row indices) stably
/// sorted by the rows' order: the same indices, in order, equal rows
/// keeping their relative order.
pub open spec fn stably_sorted(
    rows: Seq<RowView>,
    column: SortColumn,
    ascending: bool,
    before: Seq<usize>,
    after: Seq<usize>,
) -> bool {
    let r = rows_at(rows, after);
    &&& after.to_multiset() == before.to_multiset()
    &&& forall|i: int, j: int|
        0 <= i < j < after.len() ==> row_order(r[i], r[j], column, ascending) != Ordering::Greater
    &&& forall|i: int, j: int|
        0 <= i < j < after.len() && row_order(r[i], r[j], column, ascending) == Ordering::Equal
            ==> after[i] < after[j]
}

/// Compares two byte strings lexicographically.
pub fn compare_bytes(a: &[u8], b: &[u8]) -> (r: Ordering)
    ensures
        r == bytes_order(a@, b@),
{
    let n = first_difference_at(a, b);
    if n == a.len() && n == b.len() {
        Ordering::Equal
    } else if n == a.len() {
        Ordering::Less
    } else if n == b.len() {
        Ordering::Greater
    } else if a[n] < b[n] {
        Ordering::Less
    } else {
        Ordering::Greater
    }
}

/// Compares two numbers.
pub fn compare_numbers(a: u64, b: u64) -> (r: Ordering)
    ensures
        r == number_order(a, b),
{
    if a < b {
        Ordering::Less
    } else if a > b {
        Ordering::Greater
    } else {
        Ordering::Equal
    }
}

/// Compares two rows by `column`, reversed when descending.
pub fn compare_rows(
    a_addr: u64,
    a_name: &str,
    a_type: &str,
    b_addr: u64,
    b_name: &str,
    b_type: &str,
    column: SortColumn,
    ascending: bool,
) -> (r: Ordering)
    ensures
        r == row_order((a_addr, a_name@, a_type@), (b_addr, b_name@, b_type@), column, ascending),
{
    let o = match column {
        SortColumn::Address => compare_numbers(a_addr, b_addr),
        SortColumn::Name => compare_bytes(a_name.as_bytes(), b_name.as_bytes()),
        SortColumn::Type => compare_bytes(a_type.as_bytes(), b_type.as_bytes()),
    };
    if ascending {
        o
    } else {
        match o {
            Ordering::Less => Ordering::Greater,
            Ordering::Equal => Ordering::Equal,
            Ordering::Greater => Ordering::Less,
        }
    }
}

/// Whether row index `x` goes before `y` in a stable sort: its row is
/// ordered first, or the rows are equal and `x` is the lower index.
pub open spec fn sorts_before(
    rows: Seq<RowView>,
    column: SortColumn,
    ascending: bool,
    x: usize,
    y: usize,
) -> bool {
    let o = row_order(row_at(rows, x), row_at(rows, y), column, ascending);
    o == Ordering::Less || (o == Ordering::Equal && x < y)
}

/// Whether the row indices `s` go strictly in stable-sort order.
pub open spec fn sorted_by_rows(
    rows: Seq<RowView>,
    column: SortColumn,
    ascending: bool,
    s: Seq<usize>,
) -> bool {
    forall|i: int, j: int|
        0 <= i < j < s.len() ==> sorts_before(rows, column, ascending, s[i], s[j])
}

/// Where two byte strings first differ does not depend on their order.
proof fn lemma_first_difference_symmetric(a: Seq<u8>, b: Seq<u8>, i: int)
    ensures
        first_difference(a, b, i) == first_difference(b, a, i),
    decreases a.len() - i,
{
    if !(i < 0 || i >= a.len() || i >= b.len() || a[i] != b[i]) {
        lemma_first_difference_symmetric(a, b, i + 1);
    }
}

/// Where two byte strings first differ, both go on only if their bytes
/// differ there.
proof fn lemma_first_difference_differs(a: Seq<u8>, b: Seq<u8>, i: int)
    requires
        0 <= i,
    ensures
        i <= first_difference(a, b, i),
        first_difference(a, b, i) < a.len() && first_difference(a, b, i) < b.len() ==> a[first_difference(
            a,
            b,
            i,
        )] != b[first_difference(a, b, i)],
    decreases a.len() - i,
{
    if !(i >= a.len() || i >= b.len() || a[i] != b[i]) {
        lemma_first_difference_differs(a, b, i + 1);
    }
}

/// Comparing the other way round gives the opposite order.
proof fn lemma_bytes_order_flip(a: Seq<u8>, b: Seq<u8>)
    ensures
        bytes_order(b, a) == flipped(bytes_order(a, b)),
{
    lemma_first_difference_symmetric(a, b, 0);
    lemma_first_difference_differs(a, b, 0);
}

/// Comparing two rows the other way round gives the opposite order.
proof fn lemma_row_order_flip(x: RowView, y: RowView, column: SortColumn, ascending: bool)
    ensures
        row_order(y, x, column, ascending) == flipped(row_order(x, y, column, ascending)),
{
    lemma_bytes_order_flip(encode_utf8(x.1), encode_utf8(y.1));
    lemma_bytes_order_flip(encode_utf8(x.2), encode_utf8(y.2));
}

/// Of two row indices at most one goes before the other.
proof fn lemma_sorts_before_asymmetric(
    rows: Seq<RowView>,
    column: SortColumn,
    ascending: bool,
    x: usize,
    y: usize,
)
    ensures
        !(sorts_before(rows, column, ascending, x, y) && sorts_before(
            rows,
            column,
            ascending,
            y,
            x,
        )),
{
    lemma_row_order_flip(row_at(rows, x), row_at(rows, y), column, ascending);
}

/// Two sequences of the same row indices that both go in stable-sort
/// order are equal.
proof fn lemma_sorted_rows_unique(
    rows: Seq<RowView>,
    column: SortColumn,
    ascending: bool,
    a: Seq<usize>,
    b: Seq<usize>,
)
    requires
        a.to_multiset() == b.to_multiset(),
        sorted_by_rows(rows, column, ascending, a),
        sorted_by_rows(rows, column, ascending, b),
    ensures
        a == b,
    decreases a.len(),
{
    a.to_multiset_ensures();
    b.to_multiset_ensures();
    if a.len() == 0 {
        assert(a =~= b);
    } else {
        assert(a.contains(a[0]));
        assert(a.to_multiset().count(a[0]) > 0);
        assert(b.to_multiset().count(a[0]) > 0);
        assert(b.contains(a[0]));
        assert(b.contains(b[0]));
        assert(b.to_multiset().count(b[0]) > 0);
        assert(a.to_multiset().count(b[0]) > 0);
        assert(a.contains(b[0]));
        let j = choose|j: int| 0 <= j < b.len() && b[j] == a[0];
        let i = choose|i: int| 0 <= i < a.len() && a[i] == b[0];
        if a[0] != b[0] {
            assert(sorts_before(rows, column, ascending, a[0], a[i]));
            assert(sorts_before(rows, column, ascending, b[0], b[j]));
            lemma_sorts_before_asymmetric(rows, column, ascending, a[0], b[0]);
        }
        let ta = a.remove(0);
        let tb = b.remove(0);
        assert(ta.to_multiset() == tb.to_multiset());
        assert(sorted_by_rows(rows, column, ascending, ta)) by {
            assert forall|p: int, q: int| 0 <= p < q < ta.len() implies sorts_before(
                rows,
                column,
                ascending,
                ta[p],
                ta[q],
            ) by {
                assert(ta[p] == a[p + 1] && ta[q] == a[q + 1]);
            }
        }
        assert(sorted_by_rows(rows, column, ascending, tb)) by {
            assert forall|p: int, q: int| 0 <= p < q < tb.len() implies sorts_before(
                rows,
                column,
                ascending,
                tb[p],
                tb[q],
            ) by {
                assert(tb[p] == b[p + 1] && tb[q] == b[q + 1]);
            }
        }
        lemma_sorted_rows_unique(rows, column, ascending, ta, tb);
        assert forall|k: int| 0 <= k < a.len() implies a[k] == b[k] by {
            if k > 0 {
                assert(a[k] == ta[k - 1] && b[k] == tb[k - 1]);
            }
        }
        assert(a =~= b);
    }
}

/// A stable sort has one outcome: two stable sorts of the same row
/// indices by the same order are the same sequence.
pub proof fn law_stable_sort_unique(
    rows: Seq<RowView>,
    column: SortColumn,
    ascending: bool,
    before: Seq<usize>,
    a: Seq<usize>,
    b: Seq<usize>,
)
    requires
        stably_sorted(rows, column, ascending, before, a),
        stably_sorted(rows, column, ascending, before, b),
    ensures
        a == b,
{
    assert(sorted_by_rows(rows, column, ascending, a)) by {
        assert forall|i: int, j: int| 0 <= i < j < a.len() implies sorts_before(
            rows,
            column,
            ascending,
            a[i],
            a[j],
        ) by {
            assert(rows_at(rows, a)[i] == row_at(rows, a[i]));
            assert(rows_at(rows, a)[j] == row_at(rows, a[j]));
        }
    }
    assert(sorted_by_rows(rows, column, ascending, b)) by {
        assert forall|i: int, j: int| 0 <= i < j < b.len() implies sorts_before(
            rows,
            column,
            ascending,
            b[i],
            b[j],
        ) by {
            assert(rows_at(rows, b)[i] == row_at(rows, b[i]));
            assert(rows_at(rows, b)[j] == row_at(rows, b[j]));
        }
    }
    lemma_sorted_rows_unique(rows, column, ascending, a, b);
}


/// Before where two byte strings first differ (from `i` on), their bytes
/// agree, and that place is inside both.
proof fn lemma_first_difference_agrees(a: Seq<u8>, b: Seq<u8>, i: int)
    requires
        0 <= i <= a.len(),
        i <= b.len(),
    ensures
        i <= first_difference(a, b, i) <= a.len(),
        first_difference(a, b, i) <= b.len(),
        forall|k: int| i <= k < first_difference(a, b, i) ==> a[k] == b[k],
    decreases a.len() - i,
{
    if !(i >= a.len() || i >= b.len() || a[i] != b[i]) {
        lemma_first_difference_agrees(a, b, i + 1);
    }
}

/// The byte order puts `a` no later than `b` only in dictionary order, and
/// calls them equal only when they are the same.
proof fn lemma_bytes_order_dictionary(a: Seq<u8>, b: Seq<u8>)
    ensures
        bytes_order(a, b) != Ordering::Greater ==> bytes_le(a, b),
        bytes_order(a, b) == Ordering::Equal ==> a == b,
{
    lemma_first_difference_agrees(a, b, 0);
    lemma_first_difference_differs(a, b, 0);
    let n = first_difference(a, b, 0);
    if n >= a.len() && n >= b.len() {
        assert(a =~= b);
        lemma_prefix_bytes_le(a, b);
    } else if n >= a.len() {
        lemma_prefix_bytes_le(a, b);
    } else if n < b.len() {
        assert(a.subrange(0, n) =~= b.subrange(0, n));
        if a[n] < b[n] {
            assert(bytes_le(a, b));
        }
    }
}

/// Rows sorted by a column come in that column's order: numeric for
/// addresses, dictionary order of the UTF-8 bytes for names and types,
/// reversed when descending. So any two rows of a sort, the earlier one
/// first, are in order by the column.
pub proof fn law_sorted_rows_follow_column(
    rows: Seq<RowView>,
    column: SortColumn,
    ascending: bool,
    before: Seq<usize>,
    after: Seq<usize>,
)
    requires
        stably_sorted(rows, column, ascending, before, after),
    ensures
        forall|i: int, j: int|
            0 <= i < j < after.len() ==> column_in_order(
                #[trigger] rows_at(rows, after)[i],
                #[trigger] rows_at(rows, after)[j],
                column,
                ascending,
            ),
{
    let r = rows_at(rows, after);
    assert forall|i: int, j: int| 0 <= i < j < after.len() implies column_in_order(
        #[trigger] r[i],
        #[trigger] r[j],
        column,
        ascending,
    ) by {
        let x = r[i];
        let y = r[j];
        assert(row_order(x, y, column, ascending) != Ordering::Greater);
        lemma_bytes_order_dictionary(encode_utf8(x.1), encode_utf8(y.1));
        lemma_bytes_order_dictionary(encode_utf8(y.1), encode_utf8(x.1));
        lemma_bytes_order_dictionary(encode_utf8(x.2), encode_utf8(y.2));
        lemma_bytes_order_dictionary(encode_utf8(y.2), encode_utf8(x.2));
        lemma_bytes_order_flip(encode_utf8(x.1), encode_utf8(y.1));
        lemma_bytes_order_flip(encode_utf8(x.2), encode_utf8(y.2));
    }
}

/// Two rows compare as equal by a column only when they hold the same
/// value in it: rows whose texts (or addresses) differ are never tied.
pub proof fn law_ties_share_column(x: RowView, y: RowView, column: SortColumn, ascending: bool)
    ensures
        row_order(x, y, column, ascending) == Ordering::Equal ==> same_in_column(x, y, column),
{
    lemma_bytes_order_dictionary(encode_utf8(x.1), encode_utf8(y.1));
    lemma_bytes_order_dictionary(encode_utf8(x.2), encode_utf8(y.2));
    if row_order(x, y, column, ascending) == Ordering::Equal {
        vstd::utf8::encode_utf8_decode_utf8(x.1);
        vstd::utf8::encode_utf8_decode_utf8(y.1);
        vstd::utf8::encode_utf8_decode_utf8(x.2);
        vstd::utf8::encode_utf8_decode_utf8(y.2);
    }
}

} // verus!
