//! The order of rows.

use vstd::prelude::*;

use crate::expression::block::{column_cell, ColumnRef, DataBlock};
use crate::expression::value::{
    lemma_lex_order_antisymmetric, lemma_lex_order_transitive, lex_order,
};

verus! {

/// A column by which rows are sorted.
#[derive(Debug)]
pub struct SortColumnDescription {
    pub column_name: String,
    pub asc: bool,
    pub nulls_first: bool,
}

/// What the columns that rows are sorted by hold in a row.
pub type Key = Seq<Option<Seq<int>>>;

/// The order of two cells: negative, zero or positive as `a` comes before `b`, holds the same as
/// `b`, or comes after `b`. Where nulls stand does not depend on the direction.
pub open spec fn cell_order(
    a: Option<Seq<int>>,
    b: Option<Seq<int>>,
    by: SortColumnDescription,
) -> int {
    match (a, b) {
        (None, None) => 0,
        (None, Some(_)) => if by.nulls_first {
            -1
        } else {
            1
        },
        (Some(_), None) => if by.nulls_first {
            1
        } else {
            -1
        },
        (Some(x), Some(y)) => if by.asc {
            lex_order(x, y)
        } else {
            -lex_order(x, y)
        },
    }
}

/// The order of two keys from column `i` on: that of the first cells that differ.
pub open spec fn key_order_from(a: Key, b: Key, by: Seq<SortColumnDescription>, i: int) -> int
    decreases by.len() - i,
{
    if i < 0 || i >= by.len() {
        0
    } else if cell_order(a[i], b[i], by[i]) != 0 {
        cell_order(a[i], b[i], by[i])
    } else {
        key_order_from(a, b, by, i + 1)
    }
}

/// The order of two keys: that of the first cells that differ.
pub open spec fn key_order(a: Key, b: Key, by: Seq<SortColumnDescription>) -> int {
    key_order_from(a, b, by, 0)
}

/// The order of two rows, each with the input that it comes from: that of their keys, or of the
/// inputs where the keys are equal.
pub open spec fn row_order(
    a: Key,
    a_input: int,
    b: Key,
    b_input: int,
    by: Seq<SortColumnDescription>,
) -> int {
    if key_order(a, b, by) != 0 {
        key_order(a, b, by)
    } else {
        a_input - b_input
    }
}

/// Turning two cells round turns their order round, and only cells that hold the same are neither
/// before nor after each other.
pub proof fn lemma_cell_order_antisymmetric(
    a: Option<Seq<int>>,
    b: Option<Seq<int>>,
    by: SortColumnDescription,
)
    ensures
        cell_order(a, b, by) == -cell_order(b, a, by),
        cell_order(a, b, by) == 0 <==> a == b,
{
    if let (Some(x), Some(y)) = (a, b) {
        lemma_lex_order_antisymmetric(x, y);
    }
}

/// A cell that is not after another is not after what that one is not after.
pub proof fn lemma_cell_order_transitive(
    a: Option<Seq<int>>,
    b: Option<Seq<int>>,
    c: Option<Seq<int>>,
    by: SortColumnDescription,
)
    requires
        cell_order(a, b, by) <= 0,
        cell_order(b, c, by) <= 0,
    ensures
        cell_order(a, c, by) <= 0,
{
    if let (Some(x), Some(y)) = (a, b) {
        lemma_lex_order_antisymmetric(x, y);
        if let Some(z) = c {
            lemma_lex_order_antisymmetric(y, z);
            lemma_lex_order_antisymmetric(x, z);
            if by.asc {
                lemma_lex_order_transitive(x, y, z);
            } else {
                lemma_lex_order_transitive(z, y, x);
            }
        }
    }
}

proof fn lemma_key_order_from_antisymmetric(
    a: Key,
    b: Key,
    by: Seq<SortColumnDescription>,
    i: int,
)
    ensures
        key_order_from(a, b, by, i) == -key_order_from(b, a, by, i),
    decreases by.len() - i,
{
    if 0 <= i < by.len() {
        lemma_cell_order_antisymmetric(a[i], b[i], by[i]);
        lemma_key_order_from_antisymmetric(a, b, by, i + 1);
    }
}

proof fn lemma_key_order_from_transitive(
    a: Key,
    b: Key,
    c: Key,
    by: Seq<SortColumnDescription>,
    i: int,
)
    requires
        key_order_from(a, b, by, i) <= 0,
        key_order_from(b, c, by, i) <= 0,
    ensures
        key_order_from(a, c, by, i) <= 0,
        key_order_from(a, c, by, i) == 0 ==> key_order_from(a, b, by, i) == 0 && key_order_from(
            b,
            c,
            by,
            i,
        ) == 0,
    decreases by.len() - i,
{
    if 0 <= i < by.len() {
        lemma_cell_order_antisymmetric(a[i], b[i], by[i]);
        lemma_cell_order_antisymmetric(b[i], c[i], by[i]);
        lemma_cell_order_antisymmetric(a[i], c[i], by[i]);
        lemma_cell_order_transitive(a[i], b[i], c[i], by[i]);
        if a[i] == b[i] && b[i] == c[i] {
            lemma_key_order_from_transitive(a, b, c, by, i + 1);
        }
    }
}

/// The order of keys is a total preorder: turning two keys round turns their order round.
pub proof fn lemma_key_order_antisymmetric(a: Key, b: Key, by: Seq<SortColumnDescription>)
    ensures
        key_order(a, b, by) == -key_order(b, a, by),
{
    lemma_key_order_from_antisymmetric(a, b, by, 0);
}

/// The order of keys is a total preorder: it is transitive.
pub proof fn lemma_key_order_transitive(
    a: Key,
    b: Key,
    c: Key,
    by: Seq<SortColumnDescription>,
)
    requires
        key_order(a, b, by) <= 0,
        key_order(b, c, by) <= 0,
    ensures
        key_order(a, c, by) <= 0,
        key_order(a, c, by) == 0 ==> key_order(a, b, by) == 0 && key_order(b, c, by) == 0,
{
    lemma_key_order_from_transitive(a, b, c, by, 0);
}

/// Rows of different inputs are never neither before nor after each other, and turning two rows
/// round turns their order round.
pub proof fn lemma_row_order_antisymmetric(
    a: Key,
    a_input: int,
    b: Key,
    b_input: int,
    by: Seq<SortColumnDescription>,
)
    ensures
        row_order(a, a_input, b, b_input, by) == -row_order(b, b_input, a, a_input, by),
        row_order(a, a_input, b, b_input, by) == 0 ==> a_input == b_input,
{
    lemma_key_order_antisymmetric(a, b, by);
}

/// A row that is not after another is not after what that one is not after, and it is before it
/// where one of the two steps is from before to after.
pub proof fn lemma_row_order_transitive(
    a: Key,
    a_input: int,
    b: Key,
    b_input: int,
    c: Key,
    c_input: int,
    by: Seq<SortColumnDescription>,
)
    requires
        row_order(a, a_input, b, b_input, by) <= 0,
        row_order(b, b_input, c, c_input, by) <= 0,
    ensures
        row_order(a, a_input, c, c_input, by) <= 0,
        row_order(a, a_input, c, c_input, by) == 0 ==> row_order(a, a_input, b, b_input, by) == 0
            && row_order(b, b_input, c, c_input, by) == 0,
{
    lemma_key_order_transitive(a, b, c, by);
}

/// The block has a column for every column that rows are sorted by.
pub open spec fn has_sort_columns(block: DataBlock, by: Seq<SortColumnDescription>) -> bool {
    forall|k: int|
        0 <= k < by.len() ==> block.named_column((#[trigger] by[k]).column_name@) is Some
}

/// The columns of the block that rows are sorted by.
pub open spec fn sort_columns(block: DataBlock, by: Seq<SortColumnDescription>) -> Seq<
    ColumnRef,
> {
    Seq::new(by.len(), |k: int| block.named_column(by[k].column_name@).unwrap())
}

/// What some columns hold in a row.
pub open spec fn key_in(columns: Seq<ColumnRef>, row: int) -> Key {
    Seq::new(columns.len(), |k: int| column_cell(columns[k], row))
}

/// The key of a row of the block.
pub open spec fn row_key(block: DataBlock, by: Seq<SortColumnDescription>, row: int) -> Key {
    key_in(sort_columns(block, by), row)
}

} // verus!
