//! Cursors into the blocks of the inputs, and how two cursors are compared.

use std::cmp::Ordering;
use std::sync::Arc;

use vstd::prelude::*;

use crate::exception::{ErrorCode, ErrorKind};
use crate::expression::block::{column_cell, ColumnRef, DataBlock};
use crate::expression::schema::{lemma_field_position_in_range, unknown_column};
use crate::expression::value::{int_of, is_sign, lex_order};
use crate::merge::order::{
    has_sort_columns, key_in, key_order, key_order_from, row_order, sort_columns, Key,
    SortColumnDescription,
};
use crate::text::{append_decimal, decimal};

verus! {

/// Compares the rows of two columns.
#[derive(Debug)]
pub struct ColumnComparator {
    pub left: ColumnRef,
    pub right: ColumnRef,
}

impl ColumnComparator {
    /// The order of a value in a row of the left column and one in a row of the right column.
    pub fn compare_rows(&self, left_row: usize, right_row: usize) -> (r: Ordering)
        requires
            left_row < self.left@.len(),
            right_row < self.right@.len(),
            column_cell(self.left, int_of(left_row)) is Some,
            column_cell(self.right, int_of(right_row)) is Some,
        ensures
            is_sign(
                r,
                lex_order(
                    column_cell(self.left, int_of(left_row)).unwrap(),
                    column_cell(self.right, int_of(right_row)).unwrap(),
                ),
            ),
    {
        match (&self.left[left_row], &self.right[right_row]) {
            (Some(l), Some(r)) => l.compare(r),
            _ => Ordering::Equal,
        }
    }
}

/// For each two inputs, a comparator for each column that rows are sorted by. Only one block of
/// an input is merged at a time, so there is one list of comparators for two inputs.
pub type CompareMap = Vec<Vec<Vec<ColumnComparator>>>;

/// There is a list of comparators for each two of `n` inputs.
pub open spec fn is_square(map: CompareMap, n: int) -> bool {
    &&& map@.len() == n
    &&& forall|i: int| 0 <= i < n ==> (#[trigger] map@[i])@.len() == n
}

/// The comparators for two inputs.
pub open spec fn comparators_of(map: CompareMap, i: int, j: int) -> Seq<ColumnComparator> {
    map@[i]@[j]@
}

/// The comparators compare `left` with `right`, column by column.
pub open spec fn comparators_between(
    comparators: Seq<ColumnComparator>,
    left: Seq<ColumnRef>,
    right: Seq<ColumnRef>,
) -> bool {
    &&& comparators.len() == left.len()
    &&& comparators.len() == right.len()
    &&& forall|k: int|
        #![trigger comparators[k]]
        0 <= k < comparators.len() ==> comparators[k].left == left[k] && comparators[k].right
            == right[k]
}

/// No comparators yet, for each two of `n` inputs.
pub fn create_compare_map(n: usize) -> (r: CompareMap)
    ensures
        is_square(r, int_of(n)),
        forall|i: int, j: int|
            0 <= i < n && 0 <= j < n ==> #[trigger] comparators_of(r, i, j) == Seq::<
                ColumnComparator,
            >::empty(),
{
    let mut map: CompareMap = Vec::with_capacity(n);
    let mut i: usize = 0;
    while i < n
        invariant
            i <= n,
            map@.len() == i,
            forall|a: int| 0 <= a < i ==> (#[trigger] map@[a])@.len() == n,
            forall|a: int, b: int|
                0 <= a < i && 0 <= b < n ==> #[trigger] comparators_of(map, a, b) == Seq::<
                    ColumnComparator,
                >::empty(),
        decreases n - i,
    {
        let mut inner: Vec<Vec<ColumnComparator>> = Vec::with_capacity(n);
        let mut j: usize = 0;
        while j < n
            invariant
                j <= n,
                inner@.len() == j,
                forall|b: int|
                    0 <= b < j ==> (#[trigger] inner@[b])@ == Seq::<ColumnComparator>::empty(),
            decreases n - j,
        {
            inner.push(Vec::new());
            j = j + 1;
        }
        let ghost before = map;
        map.push(inner);
        i = i + 1;
        assert forall|a: int, b: int| 0 <= a < i && 0 <= b < n implies #[trigger] comparators_of(
            map,
            a,
            b,
        ) == Seq::<ColumnComparator>::empty() by {
            if a < i - 1 {
                assert(comparators_of(map, a, b) == comparators_of(before, a, b));
            }
        }
    }
    map
}

/// `k` is the first of the columns that rows are sorted by that one of the two blocks does not
/// have.
pub open spec fn is_first_missing(
    left: DataBlock,
    right: DataBlock,
    by: Seq<SortColumnDescription>,
    k: int,
) -> bool {
    &&& 0 <= k < by.len()
    &&& left.named_column(by[k].column_name@) is None || right.named_column(
        by[k].column_name@,
    ) is None
    &&& forall|a: int|
        0 <= a < k ==> left.named_column((#[trigger] by[a]).column_name@) is Some
            && right.named_column(by[a].column_name@) is Some
}

/// The error names the first of the columns that rows are sorted by that one of the two blocks does
/// not have.
pub open spec fn names_missing_column(
    e: ErrorCode,
    left: DataBlock,
    right: DataBlock,
    by: Seq<SortColumnDescription>,
) -> bool {
    exists|k: int| #[trigger]
        is_first_missing(left, right, by, k) && e.says(
            ErrorKind::UnknownColumn,
            by[k].column_name@,
        )
}

/// Comparators for the rows of two blocks, one for each column that rows are sorted by.
pub fn build_compare(
    left: &DataBlock,
    right: &DataBlock,
    by: &Vec<SortColumnDescription>,
) -> (r: Result<Vec<ColumnComparator>, ErrorCode>)
    requires
        left.wf(),
        right.wf(),
    ensures
        r is Ok <==> has_sort_columns(*left, by@) && has_sort_columns(*right, by@),
        r matches Ok(comparators) ==> comparators_between(
            comparators@,
            sort_columns(*left, by@),
            sort_columns(*right, by@),
        ),
        r matches Err(e) ==> names_missing_column(e, *left, *right, by@),
{
    let mut comparators: Vec<ColumnComparator> = Vec::with_capacity(by.len());
    let mut k: usize = 0;
    while k < by.len()
        invariant
            k <= by.len(),
            left.wf(),
            right.wf(),
            comparators@.len() == k,
            forall|a: int|
                #![trigger comparators@[a]]
                #![trigger by@[a]]
                0 <= a < k ==> left.named_column(by@[a].column_name@) == Some(comparators@[a].left)
                    && right.named_column(by@[a].column_name@) == Some(comparators@[a].right),
        decreases by.len() - k,
    {
        let name = &by[k].column_name;
        match (left.column_by_name(name), right.column_by_name(name)) {
            (Some(l), Some(r)) => {
                comparators.push(ColumnComparator { left: l, right: r });
            },
            _ => {
                assert(is_first_missing(*left, *right, by@, k as int));
                return Err(unknown_column(name));
            },
        }
        k = k + 1;
    }
    Ok(comparators)
}

/// A cursor at a row of a block of an input.
#[derive(Debug)]
pub struct Cursor {
    pub input_index: usize,
    pub row_index: usize,
    pub num_rows: usize,
    pub sort_columns: Vec<ColumnRef>,
    pub sort_columns_descriptions: Arc<Vec<SortColumnDescription>>,
}

/// The text of the error that two cursors do not sort by the same number of columns.
pub open spec fn length_mismatch_message(left: int, right: int) -> Seq<char>
    recommends
        left >= 0,
        right >= 0,
{
    "Sort columns length not match: "@ + decimal(nat_of(left)) + " != "@ + decimal(nat_of(right))
}

/// An integer that is not negative, as a natural number.
pub open spec fn nat_of(i: int) -> nat {
    i as nat
}

fn length_mismatch(left: usize, right: usize) -> (r: ErrorCode)
    ensures
        r.says(ErrorKind::LogicalError, length_mismatch_message(left as int, right as int)),
{
    let mut message: String = String::new();
    message.append("Sort columns length not match: ");
    append_decimal(&mut message, left as u64);
    message.append(" != ");
    append_decimal(&mut message, right as u64);
    assert(message@ =~= length_mismatch_message(left as int, right as int));
    ErrorCode { kind: ErrorKind::LogicalError, message, span: None }
}

impl Cursor {
    /// There is a column for each description, and each column has a cell for each row.
    pub open spec fn wf(self) -> bool {
        &&& self.sort_columns@.len() == self.sort_columns_descriptions@.len()
        &&& forall|k: int|
            0 <= k < self.sort_columns@.len() ==> (#[trigger] self.sort_columns@[k])@.len()
                == self.num_rows
    }

    /// The cursor is in that block of that input.
    pub open spec fn is_in(
        self,
        input_index: int,
        block: DataBlock,
        by: Seq<SortColumnDescription>,
    ) -> bool {
        &&& self.input_index == input_index
        &&& self.num_rows == block.rows()
        &&& has_sort_columns(block, by)
        &&& self.sort_columns@ == sort_columns(block, by)
        &&& self.sort_columns_descriptions@ == by
    }

    /// The key of the row that the cursor is at.
    pub open spec fn key(self) -> Key {
        key_in(self.sort_columns@, int_of(self.row_index))
    }

    /// The order of the rows that two cursors are at.
    pub open spec fn order(self, other: Cursor) -> int {
        row_order(
            self.key(),
            int_of(self.input_index),
            other.key(),
            int_of(other.input_index),
            self.sort_columns_descriptions@,
        )
    }

    /// The map holds the comparators for the columns of the two cursors.
    pub open spec fn compared_by(self, other: Cursor, map: CompareMap) -> bool {
        &&& self.input_index < map@.len()
        &&& other.input_index < map@[int_of(self.input_index)]@.len()
        &&& comparators_between(
            comparators_of(map, int_of(self.input_index), int_of(other.input_index)),
            self.sort_columns@,
            other.sort_columns@,
        )
    }

    /// A cursor at the first row of a block.
    pub fn try_create(
        input_index: usize,
        block: &DataBlock,
        sort_columns_descriptions: Arc<Vec<SortColumnDescription>>,
    ) -> (r: Result<Cursor, ErrorCode>)
        requires
            block.wf(),
        ensures
            r is Ok <==> has_sort_columns(*block, sort_columns_descriptions@),
            r matches Ok(cursor) ==> {
                &&& cursor.wf()
                &&& cursor.is_in(input_index as int, *block, sort_columns_descriptions@)
                &&& cursor.row_index == 0
            },
            r matches Err(e) ==> names_missing_column(
                e,
                *block,
                *block,
                sort_columns_descriptions@,
            ),
    {
        let mut sort_columns: Vec<ColumnRef> = Vec::with_capacity(sort_columns_descriptions.len());
        let mut k: usize = 0;
        while k < sort_columns_descriptions.len()
            invariant
                k <= sort_columns_descriptions@.len(),
                block.wf(),
                sort_columns@.len() == k,
                forall|a: int|
                    #![trigger sort_columns@[a]]
                    #![trigger sort_columns_descriptions@[a]]
                    0 <= a < k ==> block.named_column(sort_columns_descriptions@[a].column_name@)
                        == Some(sort_columns@[a]),
            decreases sort_columns_descriptions.len() - k,
        {
            let name = &sort_columns_descriptions[k].column_name;
            match block.column_by_name(name) {
                Some(column) => {
                    sort_columns.push(column);
                },
                None => {
                    assert(is_first_missing(
                        *block,
                        *block,
                        sort_columns_descriptions@,
                        k as int,
                    ));
                    return Err(unknown_column(name));
                },
            }
            k = k + 1;
        }
        assert(sort_columns@ =~= crate::merge::order::sort_columns(
            *block,
            sort_columns_descriptions@,
        ));
        let num_rows: usize = block.num_rows();
        proof {
            assert forall|k: int| 0 <= k < sort_columns@.len() implies (
            #[trigger] sort_columns@[k])@.len() == num_rows by {
                let name = sort_columns_descriptions@[k].column_name@;
                assert(block.named_column(name) is Some);
                lemma_field_position_in_range(block.schema@, name);
            }
        }
        Ok(
            Cursor {
                input_index,
                row_index: 0,
                num_rows,
                sort_columns,
                sort_columns_descriptions,
            },
        )
    }

    /// Moves to the next row and returns the row that the cursor was at.
    pub fn advance(&mut self) -> (r: usize)
        requires
            old(self).row_index < usize::MAX,
        ensures
            r == old(self).row_index,
            *final(self) == (Cursor { row_index: (old(self).row_index + 1) as usize, ..*old(self)
            }),
    {
        let res: usize = self.row_index;
        self.row_index = self.row_index + 1;
        res
    }

    /// The cursor is past the last row.
    pub fn is_finished(&self) -> (r: bool)
        ensures
            r == (self.num_rows == self.row_index),
    {
        self.num_rows == self.row_index
    }

    /// The order of the rows that two cursors are at.
    pub fn compare(&self, other: &Cursor, compare_map: &CompareMap) -> (r: Result<
        Ordering,
        ErrorCode,
    >)
        requires
            self.sort_columns@.len() == other.sort_columns@.len() ==> {
                &&& self.wf()
                &&& other.wf()
                &&& self.row_index < self.num_rows
                &&& other.row_index < other.num_rows
                &&& self.compared_by(*other, *compare_map)
            },
        ensures
            match r {
                Ok(o) => self.sort_columns@.len() == other.sort_columns@.len() && is_sign(
                    o,
                    self.order(*other),
                ),
                Err(e) => self.sort_columns@.len() != other.sort_columns@.len() && e.says(
                    ErrorKind::LogicalError,
                    length_mismatch_message(
                        int_of(self.sort_columns.len()),
                        int_of(other.sort_columns.len()),
                    ),
                ),
            },
    {
        if self.sort_columns.len() != other.sort_columns.len() {
            return Err(length_mismatch(self.sort_columns.len(), other.sort_columns.len()));
        }
        let comparators = &compare_map[self.input_index][other.input_index];
        let ghost by = self.sort_columns_descriptions@;
        let mut i: usize = 0;
        while i < self.sort_columns.len()
            invariant
                i <= self.sort_columns.len(),
                self.wf(),
                other.wf(),
                self.row_index < self.num_rows,
                other.row_index < other.num_rows,
                self.sort_columns@.len() == other.sort_columns@.len(),
                by == self.sort_columns_descriptions@,
                comparators_between(comparators@, self.sort_columns@, other.sort_columns@),
                key_order(self.key(), other.key(), by) == key_order_from(
                    self.key(),
                    other.key(),
                    by,
                    int_of(i),
                ),
            decreases self.sort_columns.len() - i,
        {
            let l = &self.sort_columns[i];
            let r = &other.sort_columns[i];
            let nulls_first = self.sort_columns_descriptions[i].nulls_first;
            let asc = self.sort_columns_descriptions[i].asc;
            let left_valid = l[self.row_index].is_some();
            let right_valid = r[other.row_index].is_some();
            assert(self.key()[int_of(i)] == column_cell(*l, int_of(self.row_index)));
            assert(other.key()[int_of(i)] == column_cell(*r, int_of(other.row_index)));
            assert(comparators@[int_of(i)].left == *l);
            if !left_valid && right_valid {
                return Ok(
                    if nulls_first {
                        Ordering::Less
                    } else {
                        Ordering::Greater
                    },
                );
            }
            if left_valid && !right_valid {
                return Ok(
                    if nulls_first {
                        Ordering::Greater
                    } else {
                        Ordering::Less
                    },
                );
            }
            if left_valid && right_valid {
                match comparators[i].compare_rows(self.row_index, other.row_index) {
                    Ordering::Less => {
                        return Ok(
                            if asc {
                                Ordering::Less
                            } else {
                                Ordering::Greater
                            },
                        );
                    },
                    Ordering::Greater => {
                        return Ok(
                            if asc {
                                Ordering::Greater
                            } else {
                                Ordering::Less
                            },
                        );
                    },
                    Ordering::Equal => {},
                }
            }
            i = i + 1;
        }
        // If all columns are equal, compare the input index.
        if self.input_index < other.input_index {
            Ok(Ordering::Less)
        } else if self.input_index == other.input_index {
            Ok(Ordering::Equal)
        } else {
            Ok(Ordering::Greater)
        }
    }

    /// The row of this cursor comes before the row of the other.
    pub fn is_before(&self, other: &Cursor, compare_map: &CompareMap) -> (r: bool)
        requires
            self.wf(),
            other.wf(),
            self.row_index < self.num_rows,
            other.row_index < other.num_rows,
            self.sort_columns@.len() == other.sort_columns@.len(),
            self.compared_by(*other, *compare_map),
        ensures
            r == (self.order(*other) < 0),
    {
        match self.compare(other, compare_map) {
            Ok(Ordering::Less) => true,
            _ => false,
        }
    }
}

} // verus!
