//! Blocks of rows, held column by column.

use std::sync::Arc;

use vstd::prelude::*;

use crate::expression::schema::{field_position, DataSchema};
use crate::expression::value::{cell_view, copied_cell, Cell};

verus! {

/// A column of a block, shared by those who read it.
pub type ColumnRef = Arc<Vec<Cell>>;

/// The columns of some rows. Every column has a cell for each row.
#[derive(Debug)]
pub struct DataBlock {
    pub schema: Arc<DataSchema>,
    pub columns: Vec<ColumnRef>,
}

/// What the column holds in a row.
pub open spec fn column_cell(column: ColumnRef, row: int) -> Option<Seq<int>> {
    cell_view(column@[row])
}

impl DataBlock {
    /// How many rows the block has: as many as its first column has cells.
    pub open spec fn rows(self) -> nat {
        if self.columns@.len() == 0 {
            0
        } else {
            self.columns@[0]@.len()
        }
    }

    /// There is a field for each column, and the columns are equally long.
    pub open spec fn wf(self) -> bool {
        &&& self.schema@.len() == self.columns@.len()
        &&& forall|c: int|
            0 <= c < self.columns@.len() ==> (#[trigger] self.columns@[c])@.len() == self.rows()
    }

    /// What a column holds in a row.
    pub open spec fn cell(self, column: int, row: int) -> Option<Seq<int>> {
        column_cell(self.columns@[column], row)
    }

    /// The column of the first field of that name, if there is one.
    pub open spec fn named_column(self, name: Seq<char>) -> Option<ColumnRef> {
        match field_position(self.schema@, name) {
            Some(i) => Some(self.columns@[i]),
            None => None,
        }
    }

    /// How many rows the block has.
    pub fn num_rows(&self) -> (r: usize)
        ensures
            r == self.rows(),
    {
        if self.columns.len() == 0 {
            0
        } else {
            self.columns[0].len()
        }
    }

    /// The block has no rows.
    pub fn is_empty(&self) -> (r: bool)
        ensures
            r == (self.rows() == 0),
    {
        self.num_rows() == 0
    }

    /// The column of the first field of that name.
    pub fn column_by_name(&self, name: &String) -> (r: Option<ColumnRef>)
        requires
            self.wf(),
        ensures
            match r {
                Some(column) => self.named_column(name@) == Some(column),
                None => self.named_column(name@) is None,
            },
    {
        match self.schema.index_of(name) {
            Some(i) => Some(self.columns[i].clone()),
            None => None,
        }
    }
}

/// The rows that a list of slices names, each by the column it is in and its place there. A slice
/// is a column, its first row and how many rows it has.
pub open spec fn slice_rows(slices: Seq<(usize, usize, usize)>) -> Seq<(int, int)>
    decreases slices.len(),
{
    if slices.len() == 0 {
        Seq::empty()
    } else {
        let last = slices.last();
        slice_rows(slices.drop_last()) + Seq::new(
            last.2 as nat,
            |k: int| (last.0 as int, last.1 + k),
        )
    }
}

/// Every slice lies within its column.
pub open spec fn slices_in_range(
    columns: Seq<ColumnRef>,
    slices: Seq<(usize, usize, usize)>,
) -> bool {
    forall|s: int|
        0 <= s < slices.len() ==> {
            &&& (#[trigger] slices[s]).0 < columns.len()
            &&& slices[s].1 + slices[s].2 <= columns[slices[s].0 as int]@.len()
        }
}

/// The cells of the slices, one slice after the other.
pub fn take_column_by_slices(
    columns: &Vec<ColumnRef>,
    slices: &Vec<(usize, usize, usize)>,
) -> (r: Vec<Cell>)
    requires
        slices_in_range(columns@, slices@),
    ensures
        r@.len() == slice_rows(slices@).len(),
        forall|k: int|
            0 <= k < r@.len() ==> #[trigger] cell_view(r@[k]) == column_cell(
                columns@[slice_rows(slices@)[k].0],
                slice_rows(slices@)[k].1,
            ),
{
    let mut out: Vec<Cell> = Vec::new();
    let mut s: usize = 0;
    while s < slices.len()
        invariant
            s <= slices.len(),
            slices_in_range(columns@, slices@),
            out@.len() == slice_rows(slices@.take(s as int)).len(),
            forall|k: int|
                0 <= k < out@.len() ==> #[trigger] cell_view(out@[k]) == column_cell(
                    columns@[slice_rows(slices@.take(s as int))[k].0],
                    slice_rows(slices@.take(s as int))[k].1,
                ),
        decreases slices.len() - s,
    {
        let ghost done = slice_rows(slices@.take(s as int));
        let ghost next = slice_rows(slices@.take(s + 1));
        let (index, start, len) = slices[s];
        assert(slices@[s as int] == (index, start, len));
        proof {
            assert(slices@.take(s + 1).drop_last() =~= slices@.take(s as int));
            assert(slices@.take(s + 1).last() == slices@[s as int]);
        }
        let column = &columns[index];
        let column_len: usize = column.len();
        let mut k: usize = 0;
        while k < len
            invariant
                k <= len,
                index < columns@.len(),
                *column == columns@[index as int],
                start + len <= column_len,
                column_len == column@.len(),
                out@.len() == done.len() + k,
                next.len() == done.len() + len,
                next == done + Seq::new(len as nat, |k: int| (index as int, start + k)),
                forall|k: int|
                    0 <= k < out@.len() ==> #[trigger] cell_view(out@[k]) == column_cell(
                        columns@[next[k].0],
                        next[k].1,
                    ),
            decreases len - k,
        {
            assert(next[done.len() + k] == (index as int, start + k));
            out.push(copied_cell(&column[start + k]));
            k = k + 1;
        }
        s = s + 1;
    }
    assert(slices@.take(slices@.len() as int) =~= slices@);
    out
}

} // verus!
