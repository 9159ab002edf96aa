//! Laws on the order of rows.

use std::cmp::Ordering;

use vstd::prelude::*;

use crate::exception::{ErrorCode, ErrorKind};
use crate::expression::block::{ColumnRef, DataBlock};
use crate::expression::value::{cell_view, lemma_lex_order_antisymmetric, lex_order, Cell, Value};
use crate::laws::expression::{
    is_first, law_cells_are_told_apart, law_position_is_that_of_the_first, same_cell, same_value,
};
use crate::merge::cursor::{CompareMap, Cursor};
use crate::merge::order::{
    cell_order, key_order, key_order_from, lemma_cell_order_antisymmetric, row_key, row_order, Key,
    SortColumnDescription,
};
use crate::text::decimal;

verus! {

/// A null comes before what is not null exactly where nulls come first, and after it where they do
/// not. That does not depend on the direction.
pub proof fn law_nulls_stand_where_they_are_asked_for(x: Seq<int>, by: SortColumnDescription)
    ensures
        by.nulls_first ==> cell_order(None, Some(x), by) < 0 && cell_order(Some(x), None, by) > 0,
        !by.nulls_first ==> cell_order(None, Some(x), by) > 0 && cell_order(Some(x), None, by) < 0,
        cell_order(None, None, by) == 0,
{
}

/// Two cells that are not null are turned round where the direction is, and only then.
pub proof fn law_direction_turns_values_round(
    x: Seq<int>,
    y: Seq<int>,
    by: SortColumnDescription,
)
    ensures
        by.asc ==> cell_order(Some(x), Some(y), by) == lex_order(x, y),
        !by.asc ==> cell_order(Some(x), Some(y), by) == lex_order(y, x),
{
    lemma_lex_order_antisymmetric(x, y);
}

/// The first cells that differ decide, and keys without such cells are neither before nor after
/// each other.
pub proof fn law_first_cells_that_differ_decide(
    a: Key,
    b: Key,
    by: Seq<SortColumnDescription>,
    k: int,
)
    requires
        0 <= k <= by.len(),
        forall|j: int| 0 <= j < k ==> #[trigger] a[j] == b[j],
    ensures
        k < by.len() && a[k] != b[k] ==> key_order(a, b, by) == cell_order(a[k], b[k], by[k])
            && key_order(a, b, by) != 0,
        k == by.len() ==> key_order(a, b, by) == 0,
{
    lemma_equal_cells_pass(a, b, by, k, 0);
    if k < by.len() {
        lemma_cell_order_antisymmetric(a[k], b[k], by[k]);
    }
}

proof fn lemma_equal_cells_pass(
    a: Key,
    b: Key,
    by: Seq<SortColumnDescription>,
    k: int,
    i: int,
)
    requires
        0 <= i <= k <= by.len(),
        forall|j: int| 0 <= j < k ==> #[trigger] a[j] == b[j],
    ensures
        key_order_from(a, b, by, i) == key_order_from(a, b, by, k),
    decreases k - i,
{
    if i < k {
        assert(a[i] == b[i]);
        lemma_cell_order_antisymmetric(a[i], b[i], by[i]);
        lemma_equal_cells_pass(a, b, by, k, i + 1);
    }
}

/// Rows are ordered by their keys, and rows with the same key by their inputs.
pub proof fn law_inputs_decide_where_keys_do_not(
    a: Key,
    a_input: int,
    b: Key,
    b_input: int,
    by: Seq<SortColumnDescription>,
)
    ensures
        key_order(a, b, by) != 0 ==> row_order(a, a_input, b, b_input, by) == key_order(a, b, by),
        key_order(a, b, by) == 0 ==> row_order(a, a_input, b, b_input, by) == a_input - b_input,
{
}

/// `i` is where the first comes before the second: they agree up to there, and there the first ends
/// or holds less.
pub open spec fn comes_first_at(x: Seq<int>, y: Seq<int>, i: int) -> bool {
    &&& 0 <= i <= x.len()
    &&& i < y.len()
    &&& forall|j: int| 0 <= j < i ==> #[trigger] x[j] == y[j]
    &&& i == x.len() || x[i] < y[i]
}

/// A sequence comes before another exactly where, at the first place at which they differ, it ends
/// or holds less.
pub proof fn law_first_difference_decides(x: Seq<int>, y: Seq<int>)
    ensures
        lex_order(x, y) < 0 <==> exists|i: int| comes_first_at(x, y, i),
        lex_order(x, y) == 0 <==> x == y,
    decreases x.len(),
{
    lemma_lex_order_antisymmetric(x, y);
    if x.len() == 0 {
        if y.len() > 0 {
            assert(comes_first_at(x, y, 0));
        }
    } else if y.len() > 0 {
        if x[0] < y[0] {
            assert(comes_first_at(x, y, 0));
        } else if x[0] > y[0] {
            assert forall|i: int| !comes_first_at(x, y, i) by {
                if comes_first_at(x, y, i) && i > 0 {
                    assert(x[0] == y[0]);
                }
            }
        } else {
            let a = x.drop_first();
            let b = y.drop_first();
            law_first_difference_decides(a, b);
            if exists|i: int| comes_first_at(a, b, i) {
                let i = choose|i: int| comes_first_at(a, b, i);
                assert forall|j: int| 0 <= j < i + 1 implies #[trigger] x[j] == y[j] by {
                    if j > 0 {
                        assert(a[j - 1] == b[j - 1]);
                    }
                }
                if i < a.len() {
                    assert(x[i + 1] == a[i] && y[i + 1] == b[i]);
                }
                assert(comes_first_at(x, y, i + 1));
            }
            if exists|i: int| comes_first_at(x, y, i) {
                let i = choose|i: int| comes_first_at(x, y, i);
                assert(i > 0);
                assert forall|j: int| 0 <= j < i - 1 implies #[trigger] a[j] == b[j] by {
                    assert(x[j + 1] == y[j + 1]);
                }
                if i < x.len() {
                    assert(a[i - 1] == x[i] && b[i - 1] == y[i]);
                }
                assert(comes_first_at(a, b, i - 1));
            }
        }
    }
}

/// The first bytes come before the second: at the first place at which they differ they end or hold
/// less.
pub open spec fn bytes_come_first_at(x: Seq<u8>, y: Seq<u8>, i: int) -> bool {
    &&& 0 <= i <= x.len()
    &&& i < y.len()
    &&& forall|j: int| 0 <= j < i ==> #[trigger] x[j] == y[j]
    &&& i == x.len() || x[i] < y[i]
}

/// The first value is less than the second. Numbers are less as numbers, and bytes as words in a
/// dictionary.
pub open spec fn is_less(a: Value, b: Value) -> bool {
    match (a, b) {
        (Value::Int(x), Value::Int(y)) => x < y,
        (Value::Bytes(x), Value::Bytes(y)) => exists|i: int| bytes_come_first_at(x@, y@, i),
        _ => false,
    }
}

/// Both values are numbers, or both are bytes.
pub open spec fn are_alike(a: Value, b: Value) -> bool {
    (a is Int && b is Int) || (a is Bytes && b is Bytes)
}

/// Values are ordered as numbers and as words.
pub proof fn law_values_are_ordered(a: Value, b: Value)
    requires
        are_alike(a, b),
    ensures
        lex_order(a@, b@) < 0 <==> is_less(a, b),
        lex_order(a@, b@) == 0 <==> same_value(a, b),
{
    law_first_difference_decides(a@, b@);
    law_cells_are_told_apart(Some(a), Some(b));
    match (a, b) {
        (Value::Int(x), Value::Int(y)) => {
            assert(a@[1] == x && b@[1] == y && a@[0] == b@[0]);
            if x < y {
                assert(comes_first_at(a@, b@, 1));
            }
            if exists|i: int| comes_first_at(a@, b@, i) {
                let i = choose|i: int| comes_first_at(a@, b@, i);
                assert(i == 1);
            }
        },
        (Value::Bytes(x), Value::Bytes(y)) => {
            assert(a@.len() == x@.len() + 1 && b@.len() == y@.len() + 1);
            assert forall|j: int| 0 <= j < x@.len() implies #[trigger] x@[j] == a@[j + 1] by {}
            assert forall|j: int| 0 <= j < y@.len() implies #[trigger] y@[j] == b@[j + 1] by {}
            assert(a@[0] == 1 && b@[0] == 1);
            if exists|i: int| bytes_come_first_at(x@, y@, i) {
                let i = choose|i: int| bytes_come_first_at(x@, y@, i);
                assert forall|j: int| 0 <= j < i + 1 implies #[trigger] a@[j] == b@[j] by {
                    if j > 0 {
                        assert(x@[j - 1] == y@[j - 1]);
                    }
                }
                assert(comes_first_at(a@, b@, i + 1));
            }
            if exists|i: int| comes_first_at(a@, b@, i) {
                let i = choose|i: int| comes_first_at(a@, b@, i);
                assert(i > 0);
                assert forall|j: int| 0 <= j < i - 1 implies #[trigger] x@[j] == y@[j] by {
                    assert(a@[j + 1] == b@[j + 1]);
                }
                assert(bytes_come_first_at(x@, y@, i - 1));
            }
        },
        _ => {},
    }
}

/// The first cell stands before the second in a column that rows are sorted by.
pub open spec fn stands_before(a: Cell, b: Cell, by: SortColumnDescription) -> bool {
    match (a, b) {
        (None, None) => false,
        (None, Some(_)) => by.nulls_first,
        (Some(_), None) => !by.nulls_first,
        (Some(x), Some(y)) => if by.asc {
            is_less(x, y)
        } else {
            is_less(y, x)
        },
    }
}

/// Where both cells are not null, both are numbers or both are bytes.
pub open spec fn are_comparable(a: Cell, b: Cell) -> bool {
    match (a, b) {
        (Some(x), Some(y)) => are_alike(x, y),
        _ => true,
    }
}

/// The order of two cells is that in which they stand in a column.
pub proof fn law_cells_stand_in_order(a: Cell, b: Cell, by: SortColumnDescription)
    requires
        are_comparable(a, b),
    ensures
        cell_order(cell_view(a), cell_view(b), by) < 0 <==> stands_before(a, b, by),
        cell_order(cell_view(a), cell_view(b), by) > 0 <==> stands_before(b, a, by),
        cell_order(cell_view(a), cell_view(b), by) == 0 <==> same_cell(a, b),
{
    if let (Some(x), Some(y)) = (a, b) {
        law_values_are_ordered(x, y);
        law_values_are_ordered(y, x);
        lemma_lex_order_antisymmetric(x@, y@);
    }
}

/// The cell that a column has in a row.
pub open spec fn cell_at(column: ColumnRef, row: usize) -> Cell {
    column@[row as int]
}

/// The cell of the row that a cursor is at, in a column that rows are sorted by.
pub open spec fn cursor_cell(c: Cursor, k: int) -> Cell {
    cell_at(c.sort_columns@[k], c.row_index)
}

/// The first column in which the rows of two cursors differ decides which comes before the other,
/// by its direction and by where its nulls stand.
pub proof fn law_first_column_that_differs_decides(
    a: Cursor,
    b: Cursor,
    map: CompareMap,
    r: Result<Ordering, ErrorCode>,
    k: int,
)
    requires
        call_ensures(Cursor::compare, (&a, &b, &map), r),
        a.sort_columns@.len() == b.sort_columns@.len(),
        a.sort_columns@.len() == a.sort_columns_descriptions@.len(),
        0 <= k < a.sort_columns@.len(),
        forall|j: int|
            0 <= j < k ==> same_cell(#[trigger] cursor_cell(a, j), cursor_cell(b, j)),
        are_comparable(cursor_cell(a, k), cursor_cell(b, k)),
    ensures
        stands_before(cursor_cell(a, k), cursor_cell(b, k), a.sort_columns_descriptions@[k])
            ==> r == Ok::<Ordering, ErrorCode>(Ordering::Less),
        stands_before(cursor_cell(b, k), cursor_cell(a, k), a.sort_columns_descriptions@[k])
            ==> r == Ok::<Ordering, ErrorCode>(Ordering::Greater),
{
    let by = a.sort_columns_descriptions@;
    lemma_cursor_keys(a);
    lemma_cursor_keys(b);
    assert forall|j: int| 0 <= j < k implies #[trigger] a.key()[j] == b.key()[j] by {
        law_cells_are_told_apart(cursor_cell(a, j), cursor_cell(b, j));
    }
    law_cells_stand_in_order(cursor_cell(a, k), cursor_cell(b, k), by[k]);
    lemma_cell_order_antisymmetric(a.key()[k], b.key()[k], by[k]);
    law_first_cells_that_differ_decide(a.key(), b.key(), by, k);
}

/// The key of the row that a cursor is at holds its cells.
pub proof fn lemma_cursor_keys(c: Cursor)
    ensures
        c.key().len() == c.sort_columns@.len(),
        forall|k: int|
            0 <= k < c.sort_columns@.len() ==> #[trigger] c.key()[k] == cell_view(
                cursor_cell(c, k),
            ),
{
    assert forall|k: int| 0 <= k < c.sort_columns@.len() implies #[trigger] c.key()[k]
        == cell_view(cursor_cell(c, k)) by {}
}

/// Rows that are the same in all columns that rows are sorted by are ordered by their inputs.
pub proof fn law_same_rows_are_ordered_by_input(
    a: Cursor,
    b: Cursor,
    map: CompareMap,
    r: Result<Ordering, ErrorCode>,
)
    requires
        call_ensures(Cursor::compare, (&a, &b, &map), r),
        a.sort_columns@.len() == b.sort_columns@.len(),
        a.sort_columns@.len() == a.sort_columns_descriptions@.len(),
        forall|j: int|
            0 <= j < a.sort_columns@.len() ==> same_cell(
                #[trigger] cursor_cell(a, j),
                cursor_cell(b, j),
            ),
    ensures
        a.input_index < b.input_index ==> r == Ok::<Ordering, ErrorCode>(Ordering::Less),
        a.input_index == b.input_index ==> r == Ok::<Ordering, ErrorCode>(Ordering::Equal),
        a.input_index > b.input_index ==> r == Ok::<Ordering, ErrorCode>(Ordering::Greater),
{
    let by = a.sort_columns_descriptions@;
    lemma_cursor_keys(a);
    lemma_cursor_keys(b);
    let n = by.len();
    assert forall|j: int| 0 <= j < n implies #[trigger] a.key()[j] == b.key()[j] by {
        law_cells_are_told_apart(cursor_cell(a, j), cursor_cell(b, j));
    }
    lemma_equal_keys(a.key(), b.key(), by);
}

proof fn lemma_equal_keys(a: Key, b: Key, by: Seq<SortColumnDescription>)
    requires
        forall|j: int| 0 <= j < by.len() ==> #[trigger] a[j] == b[j],
    ensures
        key_order(a, b, by) == 0,
{
    law_first_cells_that_differ_decide(a, b, by, by.len() as int);
}

/// Two cursors that do not sort by as many columns cannot be compared, and the error says how many
/// there are.
pub proof fn law_cursors_sort_by_as_many_columns(
    a: Cursor,
    b: Cursor,
    map: CompareMap,
    r: Result<Ordering, ErrorCode>,
)
    requires
        call_ensures(Cursor::compare, (&a, &b, &map), r),
    ensures
        r is Err <==> a.sort_columns@.len() != b.sort_columns@.len(),
        r matches Err(e) ==> e.kind == ErrorKind::LogicalError && e.span is None && e.message@
            == "Sort columns length not match: "@ + decimal(a.sort_columns@.len()) + " != "@
            + decimal(b.sort_columns@.len()),
{
}

/// The key of a row holds, for each column that rows are sorted by, what the first column of that
/// name holds in the row.
pub proof fn law_key_holds_the_sort_columns(
    block: DataBlock,
    by: Seq<SortColumnDescription>,
    row: int,
    k: int,
    c: int,
)
    requires
        0 <= k < by.len(),
        is_first(block.schema.fields@, by[k].column_name@, c),
    ensures
        row_key(block, by, row).len() == by.len(),
        row_key(block, by, row)[k] == cell_view(block.columns@[c]@[row]),
{
    law_position_is_that_of_the_first(block.schema.fields@, by[k].column_name@, c);
}

} // verus!
