//! Building a block of the rows that were merged.

use std::collections::VecDeque;
use std::sync::Arc;

use vstd::prelude::*;

use crate::expression::block::{
    column_cell, slice_rows, slices_in_range, take_column_by_slices, ColumnRef, DataBlock,
};
use crate::expression::value::{cell_view, Cell};
use crate::merge::history::{
    ends_with, inputs_sorted, lemma_ends_with_skip, lemma_numbered_neighbours,
};
use crate::merge::processor::MultiSortMergeProcessor;

verus! {

/// How many blocks the first `k` inputs have.
pub open spec fn total_blocks(blocks: Seq<VecDeque<DataBlock>>, k: int) -> nat
    decreases k,
{
    if k <= 0 {
        0
    } else {
        total_blocks(blocks, k - 1) + blocks[k - 1]@.len()
    }
}

/// The number of a block, when the blocks of all inputs are counted one input after the other.
pub open spec fn block_number(blocks: Seq<VecDeque<DataBlock>>, i: int, b: int) -> int {
    total_blocks(blocks, i) + b
}

/// The blocks that stay once those of which all rows were merged are dropped: the last one.
pub open spec fn last_only(blocks: Seq<DataBlock>) -> Seq<DataBlock> {
    if blocks.len() > 1 {
        blocks.skip(blocks.len() - 1)
    } else {
        blocks
    }
}

proof fn lemma_total_blocks_grows(blocks: Seq<VecDeque<DataBlock>>, i: int, j: int)
    requires
        0 <= i <= j,
    ensures
        total_blocks(blocks, i) <= total_blocks(blocks, j),
    decreases j - i,
{
    if i < j {
        lemma_total_blocks_grows(blocks, i, j - 1);
    }
}

/// Two blocks with one number are one block.
proof fn lemma_block_number_injective(
    blocks: Seq<VecDeque<DataBlock>>,
    i: int,
    b: int,
    j: int,
    c: int,
)
    requires
        0 <= i < blocks.len(),
        0 <= j < blocks.len(),
        0 <= b < blocks[i]@.len(),
        0 <= c < blocks[j]@.len(),
        block_number(blocks, i, b) == block_number(blocks, j, c),
    ensures
        i == j,
        b == c,
{
    if i < j {
        lemma_total_blocks_grows(blocks, i + 1, j);
    } else if j < i {
        lemma_total_blocks_grows(blocks, j + 1, i);
    }
}

/// Neighbouring rows of one block.
spec fn run(index: int, start: int, len: int) -> Seq<(int, int)> {
    Seq::new(len as nat, |j: int| (index, start + j))
}

proof fn lemma_run_longer(front: Seq<(int, int)>, index: int, start: int, len: int)
    requires
        0 <= len,
    ensures
        front + run(index, start, len + 1) == (front + run(index, start, len)).push(
            (index, start + len),
        ),
{
    assert(front + run(index, start, len + 1) =~= (front + run(index, start, len)).push(
        (index, start + len),
    ));
}

proof fn lemma_run_of_one(front: Seq<(int, int)>, index: int, start: int)
    ensures
        front + run(index, start, 1) == front.push((index, start)),
{
    assert(front + run(index, start, 1) =~= front.push((index, start)));
}

proof fn lemma_slice_pushed(slices: Seq<(usize, usize, usize)>, slice: (usize, usize, usize))
    ensures
        slice_rows(slices.push(slice)) == slice_rows(slices) + run(
            slice.0 as int,
            slice.1 as int,
            slice.2 as int,
        ),
{
    assert(slices.push(slice).drop_last() =~= slices);
    assert(slice_rows(slices.push(slice)) =~= slice_rows(slices) + run(
        slice.0 as int,
        slice.1 as int,
        slice.2 as int,
    ));
}

/// Slices that are not empty lie within their columns where all their rows do.
proof fn lemma_slices_in_range(columns: Seq<ColumnRef>, slices: Seq<(usize, usize, usize)>)
    requires
        forall|s: int| 0 <= s < slices.len() ==> (#[trigger] slices[s]).2 > 0,
        forall|k: int|
            #![trigger slice_rows(slices)[k]]
            0 <= k < slice_rows(slices).len() ==> {
                &&& 0 <= slice_rows(slices)[k].0 < columns.len()
                &&& slice_rows(slices)[k].1 < columns[slice_rows(slices)[k].0]@.len()
            },
    ensures
        slices_in_range(columns, slices),
    decreases slices.len(),
{
    if slices.len() > 0 {
        let front = slices.drop_last();
        let last = slices.last();
        let rows = slice_rows(slices);
        let front_rows = slice_rows(front);
        assert forall|k: int|
            #![trigger front_rows[k]]
            0 <= k < front_rows.len() implies {
            &&& 0 <= front_rows[k].0 < columns.len()
            &&& front_rows[k].1 < columns[front_rows[k].0]@.len()
        } by {
            assert(rows[k] == front_rows[k]);
        }
        assert forall|s: int| 0 <= s < front.len() implies (#[trigger] front[s]).2 > 0 by {
            assert(slices[s] == front[s]);
        }
        lemma_slices_in_range(columns, front);
        assert(slices[slices.len() - 1] == last);
        let k = front_rows.len() + last.2 - 1;
        assert(rows[k] == (last.0 as int, last.1 + (last.2 - 1)));
        assert forall|s: int| 0 <= s < slices.len() implies {
            &&& (#[trigger] slices[s]).0 < columns.len()
            &&& slices[s].1 + slices[s].2 <= columns[slices[s].0 as int]@.len()
        } by {
            if s < front.len() {
                assert(front[s] == slices[s]);
            }
        }
    }
}

impl MultiSortMergeProcessor {
    /// Where a row that is in progress is kept: the number of its block, and its place there.
    pub open spec fn numbered_row(self, k: int) -> (int, int) {
        let (i, b, r) = self.in_progess_rows@[k];
        (block_number(self.blocks@, i as int, b as int), r as int)
    }

    /// The number of the first block of each input.
    fn block_offsets(&self) -> (r: Vec<usize>)
        requires
            total_blocks(self.blocks@, self.blocks@.len() as int) <= usize::MAX,
        ensures
            r@.len() == self.blocks@.len(),
            forall|i: int| 0 <= i < r@.len() ==> #[trigger] r@[i] == total_blocks(self.blocks@, i),
    {
        let mut offsets: Vec<usize> = Vec::with_capacity(self.blocks.len());
        let mut len: usize = 0;
        let mut i: usize = 0;
        while i < self.blocks.len()
            invariant
                i <= self.blocks@.len(),
                total_blocks(self.blocks@, self.blocks@.len() as int) <= usize::MAX,
                len == total_blocks(self.blocks@, i as int),
                offsets@.len() == i,
                forall|j: int|
                    0 <= j < i ==> #[trigger] offsets@[j] == total_blocks(self.blocks@, j),
            decreases self.blocks.len() - i,
        {
            proof {
                lemma_total_blocks_grows(self.blocks@, i + 1, self.blocks@.len() as int);
            }
            offsets.push(len);
            len = len + self.blocks[i].len();
            i = i + 1;
        }
        offsets
    }

    /// Rows in progress that follow each other in one block are neighbours there.
    proof fn lemma_neighbours(self, k: int)
        requires
            self.sound(),
            0 <= k < self.in_progess_rows@.len() - 1,
            self.numbered_row(k).0 == self.numbered_row(k + 1).0,
        ensures
            self.numbered_row(k + 1).1 == self.numbered_row(k).1 + 1,
    {
        assert(self.row_ok(k));
        assert(self.row_ok(k + 1));
        let (i, b, r) = self.in_progess_rows@[k];
        let (j, c, s) = self.in_progess_rows@[k + 1];
        lemma_block_number_injective(self.blocks@, i as int, b as int, j as int, c as int);
        let at = self.history@.emitted.len() - self.in_progess_rows@.len() + k;
        lemma_numbered_neighbours(self.history@.emitted, self.n(), at);
    }

    /// The rows in progress as slices of blocks.
    fn progress_slices(&self) -> (r: Vec<(usize, usize, usize)>)
        requires
            self.sound(),
            self.in_progess_rows@.len() > 0,
            total_blocks(self.blocks@, self.n()) <= usize::MAX,
        ensures
            slice_rows(r@) == Seq::new(
                self.in_progess_rows@.len(),
                |k: int| self.numbered_row(k),
            ),
            forall|s: int| 0 <= s < r@.len() ==> (#[trigger] r@[s]).2 > 0,
    {
        let offsets = self.block_offsets();
        let ghost rows = Seq::new(self.in_progess_rows@.len(), |k: int| self.numbered_row(k));
        let (first_input, first_block, first_row) = self.in_progess_rows[0];
        proof {
            assert(self.row_ok(0));
            assert(self.in_progess_rows@[0] == (first_input, first_block, first_row));
            self.lemma_number_in_range(0);
        }
        let mut index: usize = offsets[first_input] + first_block;
        let mut start_row_index: usize = first_row;
        let mut end_row_index: usize = start_row_index + 1;
        let mut indices: Vec<(usize, usize, usize)> = Vec::new();
        let mut k: usize = 1;
        proof {
            lemma_run_of_one(slice_rows(indices@), index as int, start_row_index as int);
            assert(rows.take(1) =~= slice_rows(indices@).push(rows[0]));
        }
        while k < self.in_progess_rows.len()
            invariant
                1 <= k <= self.in_progess_rows@.len(),
                self.sound(),
                total_blocks(self.blocks@, self.n()) <= usize::MAX,
                offsets@.len() == self.blocks@.len(),
                forall|i: int|
                    0 <= i < offsets@.len() ==> #[trigger] offsets@[i] == total_blocks(
                        self.blocks@,
                        i,
                    ),
                rows == Seq::new(self.in_progess_rows@.len(), |k: int| self.numbered_row(k)),
                start_row_index < end_row_index,
                rows[k - 1] == (index as int, end_row_index - 1),
                rows.take(k as int) == slice_rows(indices@) + run(
                    index as int,
                    start_row_index as int,
                    end_row_index - start_row_index,
                ),
                forall|s: int| 0 <= s < indices@.len() ==> (#[trigger] indices@[s]).2 > 0,
            decreases self.in_progess_rows.len() - k,
        {
            let (input, block, row) = self.in_progess_rows[k];
            proof {
                assert(self.row_ok(k as int));
                assert(self.in_progess_rows@[k as int] == (input, block, row));
                self.lemma_number_in_range(k as int);
                assert(rows[k as int] == self.numbered_row(k as int));
                assert(rows[k - 1] == self.numbered_row(k - 1));
                assert(rows.take(k + 1) =~= rows.take(k as int).push(rows[k as int]));
            }
            let next_index: usize = offsets[input] + block;
            if next_index == index {
                // Within the same block.
                proof {
                    self.lemma_neighbours(k - 1);
                    lemma_run_longer(
                        slice_rows(indices@),
                        index as int,
                        start_row_index as int,
                        end_row_index - start_row_index,
                    );
                }
                end_row_index = end_row_index + 1;
                k = k + 1;
                continue;
            }
            // Another block: the slice ends, and the next one starts.
            let slice = (index, start_row_index, end_row_index - start_row_index);
            proof {
                lemma_slice_pushed(indices@, slice);
            }
            indices.push(slice);
            index = next_index;
            start_row_index = row;
            end_row_index = start_row_index + 1;
            proof {
                lemma_run_of_one(slice_rows(indices@), index as int, start_row_index as int);
            }
            k = k + 1;
        }
        let slice = (index, start_row_index, end_row_index - start_row_index);
        proof {
            lemma_slice_pushed(indices@, slice);
            assert(rows.take(k as int) =~= rows);
        }
        indices.push(slice);
        indices
    }

    /// The number of the block of a row in progress is less than the number of blocks, and a row
    /// has a row after it.
    proof fn lemma_number_in_range(self, k: int)
        requires
            self.sound(),
            0 <= k < self.in_progess_rows@.len(),
        ensures
            self.numbered_row(k).0 < total_blocks(self.blocks@, self.n()),
            self.in_progess_rows@[k].2 < usize::MAX,
    {
        assert(self.row_ok(k));
        let (i, b, r) = self.in_progess_rows@[k];
        lemma_total_blocks_grows(self.blocks@, i + 1, self.n());
        let block = self.blocks@[i as int]@[b as int];
        assert(self.fits(block));
        assert(block.columns@[0].len() == block.columns@[0]@.len());
    }

    /// The column of that place in every block that is kept.
    fn candidate_columns(&self, column: usize) -> (r: Vec<ColumnRef>)
        requires
            self.sound(),
            column < self.width(),
        ensures
            r@.len() == total_blocks(self.blocks@, self.n()),
            forall|i: int, b: int|
                0 <= i < self.n() && 0 <= b < self.blocks_of(i).len() ==> r@[#[trigger] block_number(
                    self.blocks@,
                    i,
                    b,
                )] == self.blocks_of(i)[b].columns@[column as int],
    {
        let mut out: Vec<ColumnRef> = Vec::new();
        let mut i: usize = 0;
        while i < self.blocks.len()
            invariant
                i <= self.blocks@.len(),
                self.sound(),
                column < self.width(),
                out@.len() == total_blocks(self.blocks@, i as int),
                forall|a: int, b: int|
                    0 <= a < i && 0 <= b < self.blocks_of(a).len() ==> out@[#[trigger] block_number(
                        self.blocks@,
                        a,
                        b,
                    )] == self.blocks_of(a)[b].columns@[column as int],
            decreases self.blocks.len() - i,
        {
            let mut b: usize = 0;
            while b < self.blocks[i].len()
                invariant
                    i < self.blocks@.len(),
                    b <= self.blocks_of(i as int).len(),
                    self.sound(),
                    column < self.width(),
                    out@.len() == total_blocks(self.blocks@, i as int) + b,
                    forall|a: int, c: int|
                        0 <= a < i && 0 <= c < self.blocks_of(a).len() ==> out@[
                            #[trigger] block_number(self.blocks@, a, c)] == self.blocks_of(
                            a,
                        )[c].columns@[column as int],
                    forall|c: int|
                        0 <= c < b ==> out@[#[trigger] block_number(self.blocks@, i as int, c)]
                            == self.blocks_of(i as int)[c].columns@[column as int],
                decreases self.blocks_of(i as int).len() - b,
            {
                let block = &self.blocks[i][b];
                assert(self.fits(self.blocks@[i as int]@[b as int]));
                let ghost earlier = out@;
                out.push(block.columns[column].clone());
                proof {
                    assert forall|a: int, c: int|
                        0 <= a < i && 0 <= c < self.blocks_of(a).len() implies out@[
                        #[trigger] block_number(self.blocks@, a, c)] == self.blocks_of(
                        a,
                    )[c].columns@[column as int] by {
                        lemma_total_blocks_grows(self.blocks@, a + 1, i as int);
                        assert(out@[block_number(self.blocks@, a, c)]
                            == earlier[block_number(self.blocks@, a, c)]);
                    }
                    assert forall|c: int| 0 <= c < b + 1 implies out@[
                        #[trigger] block_number(self.blocks@, i as int, c)] == self.blocks_of(
                        i as int,
                    )[c].columns@[column as int] by {
                        if c < b {
                            assert(out@[block_number(self.blocks@, i as int, c)]
                                == earlier[block_number(self.blocks@, i as int, c)]);
                        }
                    }
                }
                b = b + 1;
            }
            i = i + 1;
        }
        out
    }

    /// A column of the rows in progress.
    fn progress_column(&self, slices: &Vec<(usize, usize, usize)>, column: usize) -> (r: Vec<Cell>)
        requires
            self.sound(),
            column < self.width(),
            slice_rows(slices@) == Seq::new(
                self.in_progess_rows@.len(),
                |k: int| self.numbered_row(k),
            ),
            forall|s: int| 0 <= s < slices@.len() ==> (#[trigger] slices@[s]).2 > 0,
        ensures
            r@.len() == self.in_progess_rows@.len(),
            forall|k: int|
                0 <= k < r@.len() ==> #[trigger] cell_view(r@[k]) == self.progress_cell(
                    column as int,
                    k,
                ),
    {
        let candidates = self.candidate_columns(column);
        proof {
            assert forall|k: int|
                #![trigger slice_rows(slices@)[k]]
                0 <= k < slice_rows(slices@).len() implies {
                &&& 0 <= slice_rows(slices@)[k].0 < candidates@.len()
                &&& slice_rows(slices@)[k].1 < candidates@[slice_rows(slices@)[k].0]@.len()
                &&& column_cell(
                    candidates@[slice_rows(slices@)[k].0],
                    slice_rows(slices@)[k].1,
                ) == self.progress_cell(column as int, k)
            } by {
                assert(self.row_ok(k));
                self.lemma_number_in_range(k);
                let (i, b, r) = self.in_progess_rows@[k];
                assert(slice_rows(slices@)[k] == self.numbered_row(k));
                assert(candidates@[block_number(self.blocks@, i as int, b as int)]
                    == self.blocks_of(i as int)[b as int].columns@[column as int]);
                assert(self.fits(self.blocks@[i as int]@[b as int]));
            }
            lemma_slices_in_range(candidates@, slices@);
        }
        take_column_by_slices(&candidates, slices)
    }

    /// What a row in progress holds in a column.
    pub open spec fn progress_cell(self, column: int, k: int) -> Option<Seq<int>> {
        let (i, b, r) = self.in_progess_rows@[k];
        self.blocks_of(i as int)[b as int].cell(column, r as int)
    }

    /// Builds a block of the rows in progress, and drops the blocks of which all rows were merged.
    pub fn build_block(&mut self) -> (r: DataBlock)
        requires
            old(self).sound(),
            old(self).in_progess_rows@.len() > 0,
            total_blocks(old(self).blocks@, old(self).n()) <= usize::MAX,
        ensures
            final(self).sound(),
            *final(self) == (MultiSortMergeProcessor {
                blocks: final(self).blocks,
                in_progess_rows: final(self).in_progess_rows,
                ..*old(self)
            }),
            final(self).in_progess_rows@ == Seq::<(usize, usize, usize)>::empty(),
            forall|i: int|
                0 <= i < old(self).n() ==> #[trigger] final(self).blocks_of(i) == last_only(
                    old(self).blocks_of(i),
                ),
            r.wf(),
            r.schema == old(self).output_schema,
            r.columns@.len() == old(self).width(),
            old(self).width() > 0 ==> r.rows() == old(self).in_progess_rows@.len(),
            forall|c: int, k: int|
                0 <= c < old(self).width() && 0 <= k < old(self).in_progess_rows@.len()
                    ==> #[trigger] r.cell(c, k) == old(self).progress_cell(c, k),
    {
        let slices = self.progress_slices();
        let width: usize = self.output_schema.fields.len();
        let mut columns: Vec<ColumnRef> = Vec::with_capacity(width);
        let mut c: usize = 0;
        while c < width
            invariant
                c <= width,
                width == self.width(),
                *self == *old(self),
                self.sound(),
                slice_rows(slices@) == Seq::new(
                    self.in_progess_rows@.len(),
                    |k: int| self.numbered_row(k),
                ),
                forall|s: int| 0 <= s < slices@.len() ==> (#[trigger] slices@[s]).2 > 0,
                columns@.len() == c,
                forall|a: int|
                    0 <= a < c ==> (#[trigger] columns@[a])@.len() == self.in_progess_rows@.len(),
                forall|a: int, k: int|
                    0 <= a < c && 0 <= k < self.in_progess_rows@.len() ==> #[trigger] column_cell(
                        columns@[a],
                        k,
                    ) == self.progress_cell(a, k),
            decreases width - c,
        {
            let column = Arc::new(self.progress_column(&slices, c));
            let ghost earlier = columns@;
            columns.push(column);
            proof {
                assert forall|a: int, k: int|
                    0 <= a < c + 1 && 0 <= k < self.in_progess_rows@.len() implies
                    #[trigger] column_cell(columns@[a], k) == self.progress_cell(a, k) by {
                    if a < c {
                        assert(columns@[a] == earlier[a]);
                        assert(column_cell(earlier[a], k) == self.progress_cell(a, k));
                    } else {
                        assert(cell_view(column@[k]) == self.progress_cell(a, k));
                    }
                }
            }
            c = c + 1;
        }
        let block = DataBlock { schema: self.output_schema.clone(), columns };
        self.in_progess_rows.clear();
        self.drop_merged_blocks();
        proof {
            lemma_dropped(*old(self), *self);
        }
        block
    }

    /// Drops all blocks of each input but the last. A cursor goes to a new block only when it has
    /// come to the end of the one before, so the rows of the others were merged.
    fn drop_merged_blocks(&mut self)
        ensures
            *final(self) == (MultiSortMergeProcessor {
                blocks: final(self).blocks,
                ..*old(self)
            }),
            final(self).blocks@.len() == old(self).blocks@.len(),
            forall|i: int|
                0 <= i < old(self).blocks@.len() ==> #[trigger] final(self).blocks_of(i)
                    == last_only(old(self).blocks_of(i)),
    {
        let mut i: usize = 0;
        while i < self.blocks.len()
            invariant
                i <= self.blocks@.len(),
                self.blocks@.len() == old(self).blocks@.len(),
                *self == (MultiSortMergeProcessor { blocks: self.blocks, ..*old(self) }),
                forall|j: int|
                    0 <= j < i ==> #[trigger] self.blocks_of(j) == last_only(
                        old(self).blocks_of(j),
                    ),
                forall|j: int|
                    i <= j < self.blocks@.len() ==> #[trigger] self.blocks_of(j) == old(
                        self
                    ).blocks_of(j),
            decreases self.blocks@.len() - i,
        {
            let ghost whole = self.blocks_of(i as int);
            let ghost mut dropped: int = 0;
            assert(whole.skip(0) =~= whole);
            while self.blocks[i].len() > 1
                invariant
                    i < self.blocks@.len(),
                    self.blocks@.len() == old(self).blocks@.len(),
                    *self == (MultiSortMergeProcessor { blocks: self.blocks, ..*old(self) }),
                    whole == old(self).blocks_of(i as int),
                    0 <= dropped <= whole.len(),
                    self.blocks_of(i as int) == whole.skip(dropped),
                    dropped > 0 ==> dropped < whole.len(),
                    forall|j: int|
                        0 <= j < i ==> #[trigger] self.blocks_of(j) == last_only(
                            old(self).blocks_of(j),
                        ),
                    forall|j: int|
                        i < j < self.blocks@.len() ==> #[trigger] self.blocks_of(j) == old(
                            self
                        ).blocks_of(j),
                decreases self.blocks_of(i as int).len(),
            {
                let ghost before = *self;
                let _ = self.blocks[i].pop_front();
                proof {
                    assert(self.blocks_of(i as int) =~= whole.skip(dropped + 1));
                    dropped = dropped + 1;
                    assert forall|j: int| 0 <= j < i implies #[trigger] self.blocks_of(j)
                        == last_only(old(self).blocks_of(j)) by {
                        assert(before.blocks_of(j) == self.blocks_of(j));
                    }
                    assert forall|j: int| i < j < self.blocks@.len() implies
                        #[trigger] self.blocks_of(j) == old(self).blocks_of(j) by {
                        assert(before.blocks_of(j) == self.blocks_of(j));
                    }
                }
            }
            assert(self.blocks_of(i as int) =~= last_only(whole));
            i = i + 1;
        }
    }
}

/// Dropping the blocks of which all rows were merged keeps what holds of the rest.
proof fn lemma_dropped(before: MultiSortMergeProcessor, after: MultiSortMergeProcessor)
    requires
        before.sound(),
        after == (MultiSortMergeProcessor {
            blocks: after.blocks,
            in_progess_rows: after.in_progess_rows,
            ..before
        }),
        after.in_progess_rows@.len() == 0,
        after.blocks@.len() == before.blocks@.len(),
        forall|i: int|
            0 <= i < before.n() ==> #[trigger] after.blocks_of(i) == last_only(
                before.blocks_of(i),
            ),
    ensures
        after.sound(),
{
    assert forall|i: int| 0 <= i < before.n() && before.blocks_of(i).len() > 0 implies {
        &&& (#[trigger] after.blocks_of(i)).len() > 0
        &&& after.blocks_of(i).last() == before.blocks_of(i).last()
    } by {}
    assert(after.blocks_ok()) by {
        assert forall|i: int| 0 <= i < after.n() implies #[trigger] ends_with(
            after.history@.arrived[i],
            after.blocks_of(i),
            after.sort_by(),
            after.width(),
        ) by {
            let blocks = before.blocks_of(i);
            assert(ends_with(
                before.history@.arrived[i],
                blocks,
                before.sort_by(),
                before.width(),
            ));
            if blocks.len() > 1 {
                lemma_ends_with_skip(
                    before.history@.arrived[i],
                    blocks,
                    blocks.len() - 1,
                    before.sort_by(),
                    before.width(),
                );
            }
            assert(after.blocks_of(i) == last_only(blocks));
        }
        assert forall|i: int, b: int|
            0 <= i < after.n() && 0 <= b < after.blocks_of(i).len() implies after.fits(
            #[trigger] after.blocks@[i]@[b],
        ) by {
            let blocks = before.blocks_of(i);
            assert(after.blocks_of(i) == last_only(blocks));
            if blocks.len() > 1 {
                assert(before.fits(before.blocks@[i]@[blocks.len() - 1 + b]));
            } else {
                assert(before.fits(before.blocks@[i]@[b]));
            }
        }
    }
    assert(after.heap_ok()) by {
        assert forall|p: int|
            #![trigger after.heap.cursors@[p]]
            0 <= p < after.heap.cursors@.len() implies after.cursor_ok(after.heap.cursors@[p]) by {
            let c = before.heap.cursors@[p];
            assert(before.cursor_ok(c));
            assert(after.blocks_of(c.input_index as int).len() > 0);
        }
    }
    assert(after.map_ok()) by {
        assert forall|i: int, j: int|
            0 <= i < after.n() && 0 <= j < after.n() && i != j && after.blocks_of(i).len() > 0
                && after.blocks_of(j).len() > 0 implies #[trigger] after.comparable(i, j) by {
            assert(after.blocks_of(i) == last_only(before.blocks_of(i)));
            assert(after.blocks_of(j) == last_only(before.blocks_of(j)));
            assert(before.comparable(i, j));
        }
    }
    assert(after.history_ok(Set::empty())) by {
        assert forall|i: int|
            0 <= i < after.n() && after.cursor_finished@[i] implies #[trigger] after.taken(i)
            == after.history@.arrived[i].len() by {
            assert(before.taken(i) == before.history@.arrived[i].len());
        }
        if inputs_sorted(after.history@.arrived, after.sort_by()) {
            assert(before.sorted_so_far());
            assert(after.sorted_so_far());
        }
    }
}

} // verus!
