//! Row lookups by index, and where two byte strings first differ.

use crate::symbol_order::RowView;
use vstd::prelude::*;

verus! {

/// The row at index `x`.
pub open spec fn row_at(rows: Seq<RowView>, x: usize) -> RowView {
    rows[x as int]
}

/// The rows at the indices `idx`, in order.
pub open spec fn rows_at(rows: Seq<RowView>, idx: Seq<usize>) -> Seq<RowView> {
    idx.map_values(|i: usize| rows[i as int])
}

/// Whether the byte string `a` comes no later than `b` in dictionary
/// order: `a` is a prefix of `b`, or at the first byte where they differ
/// `a`'s byte is smaller.
pub open spec fn bytes_le(a: Seq<u8>, b: Seq<u8>) -> bool {
    ||| a.len() <= b.len() && b.subrange(0, a.len() as int) == a
    ||| exists|k: int|
        0 <= k < a.len() && k < b.len() && a.subrange(0, k) == b.subrange(0, k) && #[trigger] a[k]
            < b[k]
}

/// A prefix comes no later than what it begins.
pub proof fn lemma_prefix_bytes_le(a: Seq<u8>, b: Seq<u8>)
    requires
        a.len() <= b.len(),
        forall|k: int| 0 <= k < a.len() ==> a[k] == b[k],
    ensures
        bytes_le(a, b),
{
    assert(b.subrange(0, a.len() as int) =~= a);
}

/// Whether row `x` may come before row `y` when sorting by `column`:
/// addresses in numeric order, names and types in the dictionary order of
/// their UTF-8 bytes; the other way round when descending.
pub open spec fn column_in_order(
    x: RowView,
    y: RowView,
    column: crate::symbol_order::SortColumn,
    ascending: bool,
) -> bool {
    let (p, q) = if ascending {
        (x, y)
    } else {
        (y, x)
    };
    match column {
        crate::symbol_order::SortColumn::Address => p.0 <= q.0,
        crate::symbol_order::SortColumn::Name => bytes_le(
            vstd::utf8::encode_utf8(p.1),
            vstd::utf8::encode_utf8(q.1),
        ),
        crate::symbol_order::SortColumn::Type => bytes_le(
            vstd::utf8::encode_utf8(p.2),
            vstd::utf8::encode_utf8(q.2),
        ),
    }
}

/// Whether rows `x` and `y` hold the same value in `column`.
pub open spec fn same_in_column(x: RowView, y: RowView, column: crate::symbol_order::SortColumn) -> bool {
    match column {
        crate::symbol_order::SortColumn::Address => x.0 == y.0,
        crate::symbol_order::SortColumn::Name => x.1 == y.1,
        crate::symbol_order::SortColumn::Type => x.2 == y.2,
    }
}

/// The index where `a` and `b` first differ, or where one of them ends.
pub fn first_difference_at(a: &[u8], b: &[u8]) -> (r: usize)
    ensures
        r == crate::symbol_order::first_difference(a@, b@, 0),
        r <= a.len(),
        r <= b.len(),
{
    let mut i: usize = 0;
    while i < a.len() && i < b.len() && a[i] == b[i]
        invariant
            i <= a@.len(),
            i <= b@.len(),
            crate::symbol_order::first_difference(a@, b@, 0)
                == crate::symbol_order::first_difference(a@, b@, i as int),
        decreases a.len() - i,
    {
        i = i + 1;
    }
    i
}

} // verus!
