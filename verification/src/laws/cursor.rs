//! Laws on the cursors that wait in a merge.

use std::cmp::Ordering;
use std::sync::Arc;

use vstd::prelude::*;

use crate::exception::{ErrorCode, ErrorKind};
use crate::expression::block::DataBlock;
use crate::expression::value::{cell_view, Value};
use crate::laws::expression::{is_absent, is_first, law_position_is_that_of_the_first, same_value};
use crate::laws::merge::{has_columns, lemma_has_columns};
use crate::laws::order::{
    are_alike, cell_at, cursor_cell, is_less, law_values_are_ordered, lemma_cursor_keys,
};
use crate::merge::cursor::{
    build_compare, comparators_of, create_compare_map, is_first_missing, names_missing_column,
    ColumnComparator, CompareMap, Cursor,
};
use crate::merge::heads::{head_order, heads_of};
use crate::merge::heap::CursorHeap;
use crate::merge::order::{key_order, Key, SortColumnDescription};

verus! {

/// `k` is the first of the names that rows are sorted by of which the block has no column.
pub open spec fn is_first_absent(
    block: DataBlock,
    by: Seq<SortColumnDescription>,
    k: int,
) -> bool {
    &&& 0 <= k < by.len()
    &&& is_absent(block.schema.fields@, by[k].column_name@)
    &&& forall|j: int|
        0 <= j < k ==> !is_absent(block.schema.fields@, (#[trigger] by[j]).column_name@)
}

/// The error says that a column of that name is not known.
pub open spec fn is_unknown(e: ErrorCode, name: Seq<char>) -> bool {
    e.kind == ErrorKind::UnknownColumn && e.message@ == name && e.span is None
}

/// A cursor is made where the block has all columns that rows are sorted by. It begins at the first
/// row, knows how many there are, and holds the first column of each name.
pub proof fn law_cursor_begins_at_the_first_row(
    input: usize,
    block: DataBlock,
    sort: Arc<Vec<SortColumnDescription>>,
    r: Result<Cursor, ErrorCode>,
    k: int,
    c: int,
)
    requires
        call_ensures(Cursor::try_create, (input, &block, sort), r),
        has_columns(block, sort@),
        0 <= k < sort@.len(),
        is_first(block.schema.fields@, sort@[k].column_name@, c),
    ensures
        r matches Ok(cursor) && {
            &&& cursor.input_index == input
            &&& cursor.row_index == 0
            &&& cursor.num_rows == block.rows()
            &&& cursor.sort_columns_descriptions@ == sort@
            &&& cursor.sort_columns@.len() == sort@.len()
            &&& cursor.sort_columns@[k] == block.columns@[c]
        },
{
    lemma_has_columns(block, sort@);
    law_position_is_that_of_the_first(block.schema.fields@, sort@[k].column_name@, c);
}

/// Where a column is missing there is no cursor, and the error names the first such column.
pub proof fn law_cursor_needs_the_columns(
    input: usize,
    block: DataBlock,
    sort: Arc<Vec<SortColumnDescription>>,
    r: Result<Cursor, ErrorCode>,
    k: int,
)
    requires
        call_ensures(Cursor::try_create, (input, &block, sort), r),
        is_first_absent(block, sort@, k),
    ensures
        r matches Err(e) && is_unknown(e, sort@[k].column_name@),
{
    lemma_has_columns(block, sort@);
    assert(!has_columns(block, sort@));
    if let Err(e) = r {
        lemma_first_absent(e, block, block, sort@, k);
    }
}

proof fn lemma_first_absent(
    e: ErrorCode,
    left: DataBlock,
    right: DataBlock,
    by: Seq<SortColumnDescription>,
    k: int,
)
    requires
        names_missing_column(e, left, right, by),
        is_first_absent(left, by, k) || is_first_absent(right, by, k),
        forall|j: int|
            0 <= j < k ==> !is_absent(left.schema.fields@, (#[trigger] by[j]).column_name@)
                && !is_absent(right.schema.fields@, by[j].column_name@),
    ensures
        is_unknown(e, by[k].column_name@),
{
    let m = choose|m: int| #[trigger]
        is_first_missing(left, right, by, m) && e.says(
            ErrorKind::UnknownColumn,
            by[m].column_name@,
        );
    law_position_is_that_of_the_first(left.schema.fields@, by[m].column_name@, 0);
    law_position_is_that_of_the_first(right.schema.fields@, by[m].column_name@, 0);
    law_position_is_that_of_the_first(left.schema.fields@, by[k].column_name@, 0);
    law_position_is_that_of_the_first(right.schema.fields@, by[k].column_name@, 0);
    if k < m {
        assert(left.named_column(by[k].column_name@) is Some);
        assert(right.named_column(by[k].column_name@) is Some);
    } else if m < k {
        assert(!is_absent(left.schema.fields@, by[m].column_name@));
    }
}

/// Moving a cursor gives the row that it was at, and brings it to the next one. Nothing else is
/// changed.
pub proof fn law_cursor_goes_row_by_row(c: &mut Cursor, r: usize)
    requires
        call_ensures(Cursor::advance, (c,), r),
        old(c).row_index < usize::MAX,
    ensures
        r == old(c).row_index,
        final(c).row_index == old(c).row_index + 1,
        final(c).input_index == old(c).input_index,
        final(c).num_rows == old(c).num_rows,
        final(c).sort_columns == old(c).sort_columns,
        final(c).sort_columns_descriptions == old(c).sort_columns_descriptions,
{
}

/// A cursor is finished once it has gone through all rows.
pub proof fn law_cursor_ends_after_its_rows(c: Cursor, r: bool)
    requires
        call_ensures(Cursor::is_finished, (&c,), r),
    ensures
        r <==> c.row_index == c.num_rows,
{
}

/// A cursor is before another exactly where it compares as less.
pub proof fn law_cursor_is_before_where_it_is_less(
    a: Cursor,
    b: Cursor,
    map: CompareMap,
    r: bool,
    o: Ordering,
)
    requires
        call_ensures(Cursor::is_before, (&a, &b, &map), r),
        call_ensures(Cursor::compare, (&a, &b, &map), Ok(o)),
    ensures
        r <==> o is Less,
{
}

/// Values that are alike compare as numbers or as words.
pub proof fn law_values_compare_by_what_they_hold(a: Value, b: Value, r: Ordering)
    requires
        call_ensures(Value::compare, (&a, &b), r),
        are_alike(a, b),
    ensures
        r is Less <==> is_less(a, b),
        r is Equal <==> same_value(a, b),
{
    law_values_are_ordered(a, b);
}

/// The rows of two columns compare as the values that stand there.
pub proof fn law_rows_compare_by_their_values(
    comparator: ColumnComparator,
    left: usize,
    right: usize,
    a: Value,
    b: Value,
    r: Ordering,
)
    requires
        call_ensures(ColumnComparator::compare_rows, (&comparator, left, right), r),
        cell_at(comparator.left, left) == Some(a),
        cell_at(comparator.right, right) == Some(b),
        are_alike(a, b),
    ensures
        r is Less <==> is_less(a, b),
        r is Equal <==> same_value(a, b),
{
    law_values_are_ordered(a, b);
}

/// There are no comparators at first.
pub proof fn law_nothing_is_compared_at_first(n: usize, r: CompareMap, i: int, j: int)
    requires
        call_ensures(create_compare_map, (n,), r),
        0 <= i < n,
        0 <= j < n,
    ensures
        r@.len() == n,
        r@[i]@.len() == n,
        r@[i]@[j]@.len() == 0,
{
    assert(comparators_of(r, i, j).len() == 0);
}

/// Two blocks are compared by the first column of each name, of the one and of the other.
pub proof fn law_blocks_are_compared_by_name(
    left: DataBlock,
    right: DataBlock,
    by: Vec<SortColumnDescription>,
    r: Result<Vec<ColumnComparator>, ErrorCode>,
    k: int,
    c: int,
    d: int,
)
    requires
        call_ensures(build_compare, (&left, &right, &by), r),
        has_columns(left, by@),
        has_columns(right, by@),
        0 <= k < by@.len(),
        is_first(left.schema.fields@, by@[k].column_name@, c),
        is_first(right.schema.fields@, by@[k].column_name@, d),
    ensures
        r matches Ok(comparators) && comparators@.len() == by@.len() && comparators@[k].left
            == left.columns@[c] && comparators@[k].right == right.columns@[d],
{
    lemma_has_columns(left, by@);
    lemma_has_columns(right, by@);
    law_position_is_that_of_the_first(left.schema.fields@, by@[k].column_name@, c);
    law_position_is_that_of_the_first(right.schema.fields@, by@[k].column_name@, d);
}

/// Where one of two blocks has not all columns they are not compared, and the error names the first
/// that is missing in one of them.
pub proof fn law_blocks_without_a_column_are_not_compared(
    left: DataBlock,
    right: DataBlock,
    by: Vec<SortColumnDescription>,
    r: Result<Vec<ColumnComparator>, ErrorCode>,
    k: int,
)
    requires
        call_ensures(build_compare, (&left, &right, &by), r),
        is_first_absent(left, by@, k) || is_first_absent(right, by@, k),
        forall|j: int|
            0 <= j < k ==> !is_absent(left.schema.fields@, (#[trigger] by@[j]).column_name@)
                && !is_absent(right.schema.fields@, by@[j].column_name@),
    ensures
        r matches Err(e) && is_unknown(e, by@[k].column_name@),
{
    lemma_has_columns(left, by@);
    lemma_has_columns(right, by@);
    assert(!has_columns(left, by@) || !has_columns(right, by@));
    if let Err(e) = r {
        lemma_first_absent(e, left, right, by@, k);
    }
}

/// What the columns that rows are sorted by hold in the row that a cursor is at.
pub open spec fn key_of(c: Cursor) -> Key {
    Seq::new(c.sort_columns@.len(), |k: int| cell_view(cursor_cell(c, k)))
}

/// The row of the first cursor leaves before that of the second: its key is less, or the keys are
/// the same and its input is.
pub open spec fn leaves_before(a: Cursor, b: Cursor, by: Seq<SortColumnDescription>) -> bool {
    ||| key_order(key_of(a), key_of(b), by) < 0
    ||| key_order(key_of(a), key_of(b), by) == 0 && a.input_index < b.input_index
}

proof fn lemma_leaves_before(
    cursors: Seq<Cursor>,
    a: int,
    b: int,
    by: Seq<SortColumnDescription>,
)
    requires
        0 <= a < cursors.len(),
        0 <= b < cursors.len(),
        head_order(heads_of(cursors)[a], heads_of(cursors)[b], by) < 0,
    ensures
        leaves_before(cursors[a], cursors[b], by),
{
    lemma_cursor_keys(cursors[a]);
    lemma_cursor_keys(cursors[b]);
    assert(heads_of(cursors)[a].key() =~= key_of(cursors[a]));
    assert(heads_of(cursors)[b].key() =~= key_of(cursors[b]));
}

/// A heap is empty at first.
pub proof fn law_no_cursor_waits_at_first(r: CursorHeap, by: Seq<SortColumnDescription>)
    requires
        call_ensures(CursorHeap::new, (), r),
    ensures
        r.cursors@.len() == 0,
        r.wf(by),
{
}

/// The cursor that is taken out leaves before all that stay, and they stay as they are.
pub proof fn law_first_cursor_is_taken_out(
    heap: &mut CursorHeap,
    r: Option<Cursor>,
    by: Seq<SortColumnDescription>,
    k: int,
)
    requires
        old(heap).wf(by),
        call_ensures(CursorHeap::pop, (heap,), r),
    ensures
        r is None <==> old(heap).cursors@.len() == 0,
        r matches Some(c) ==> old(heap).cursors@ == final(heap).cursors@.push(c) && (0 <= k < final(
            heap
        ).cursors@.len() ==> leaves_before(c, final(heap).cursors@[k], by)),
{
    let was = old(heap).cursors@;
    if let Some(c) = r {
        assert(was =~= final(heap).cursors@.push(c));
        if 0 <= k < final(heap).cursors@.len() {
            let heads = heads_of(was);
            assert(head_order(heads[was.len() - 1], heads[k], by) < 0);
            lemma_leaves_before(was, was.len() - 1, k, by);
        }
    }
}

/// A cursor that is added waits with those that did, and a cursor that stands behind another leaves
/// before it.
pub proof fn law_added_cursor_waits_at_its_place(
    heap: &mut CursorHeap,
    cursor: Cursor,
    map: CompareMap,
    i: int,
    j: int,
)
    requires
        call_ensures(CursorHeap::push, (heap, cursor, &map), ()),
        0 <= i < j < old(heap).cursors@.len() + 1,
    ensures
        exists|p: int|
            0 <= p <= old(heap).cursors@.len() && final(heap).cursors@ == #[trigger] old(
                heap
            ).cursors@.insert(p, cursor),
        leaves_before(
            final(heap).cursors@[j],
            final(heap).cursors@[i],
            cursor.sort_columns_descriptions@,
        ),
{
    let by = cursor.sort_columns_descriptions@;
    let now = final(heap).cursors@;
    let heads = heads_of(now);
    assert(now.len() == old(heap).cursors@.len() + 1);
    assert(head_order(heads[j], heads[i], by) < 0);
    lemma_leaves_before(now, j, i, by);
}

/// A heap says how many cursors wait, and whether any does.
pub proof fn law_waiting_cursors_are_counted(heap: CursorHeap, n: usize, none: bool)
    requires
        call_ensures(CursorHeap::len, (&heap,), n),
        call_ensures(CursorHeap::is_empty, (&heap,), none),
    ensures
        n == heap.cursors@.len(),
        none <==> n == 0,
{
}

} // verus!
