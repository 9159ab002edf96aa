//! Keeping the blocks that have come, and building the blocks that go.

use std::collections::VecDeque;

use vstd::prelude::*;

use crate::exception::{ErrorCode, ErrorKind};
use crate::expression::block::DataBlock;
use crate::merge::cursor::{
    build_compare, comparators_of, is_square, names_missing_column, CompareMap, Cursor,
};
use crate::merge::drain::drained;
use crate::merge::event::lemma_heap_within_active;
use crate::merge::heads::{place, steps, Head};
use crate::merge::history::{
    block_row, block_rows, count_of, ends_with, entry_order, inputs_sorted,
    lemma_count_unset_positive, lemma_count_unset_update, lemma_ends_with_push,
    lemma_tail_rows_push, row_at, row_cells, tail_rows, History, Row,
};
use crate::merge::order::{has_sort_columns, sort_columns, SortColumnDescription};
use crate::merge::output::{last_only, total_blocks};
use crate::merge::processor::{done_flags, lemma_frame, MultiSortMergeProcessor, ProcessorState};

verus! {

/// The block that comes from input `i`, if one does.
pub open spec fn comes_from(incoming: Seq<(usize, DataBlock)>, i: int, s: int) -> bool {
    0 <= s < incoming.len() && incoming[s].0 == i
}

/// A block comes from input `i`.
pub open spec fn has_incoming(incoming: Seq<(usize, DataBlock)>, i: int) -> bool {
    exists|s: int| comes_from(incoming, i, s)
}

/// The block that comes from input `i`.
pub open spec fn incoming_from(incoming: Seq<(usize, DataBlock)>, i: int) -> DataBlock {
    incoming[choose|s: int| comes_from(incoming, i, s)].1
}

/// The blocks of input `i` with the one that comes from it.
pub open spec fn with_incoming(
    blocks: Seq<DataBlock>,
    incoming: Seq<(usize, DataBlock)>,
    i: int,
) -> Seq<DataBlock> {
    if has_incoming(incoming, i) {
        blocks.push(incoming_from(incoming, i))
    } else {
        blocks
    }
}

/// The blocks that have come are kept, each behind the others of its input.
pub open spec fn keeps(
    before: Seq<VecDeque<DataBlock>>,
    incoming: Seq<(usize, DataBlock)>,
    after: Seq<VecDeque<DataBlock>>,
) -> bool {
    &&& after.len() == before.len()
    &&& forall|i: int|
        0 <= i < before.len() ==> (#[trigger] after[i])@ == with_incoming(
            before[i]@,
            incoming,
            i,
        )
}

/// The columns that rows are sorted by are there: in the blocks that have come and have rows, and
/// in each block that one that has come is compared with.
pub open spec fn can_be_sorted(
    kept: MultiSortMergeProcessor,
    incoming: Seq<(usize, DataBlock)>,
) -> bool {
    &&& forall|i: int, s: int|
        0 <= s < incoming.len() && #[trigger] is_compared(kept, incoming, i, s) ==> {
            &&& has_sort_columns(kept.blocks_of(i).last(), kept.sort_by())
            &&& has_sort_columns(incoming[s].1, kept.sort_by())
        }
    &&& forall|s: int|
        0 <= s < incoming.len() && (#[trigger] incoming[s]).1.rows() > 0 ==> has_sort_columns(
            incoming[s].1,
            kept.sort_by(),
        )
}

/// The first of the blocks that have come that has rows and does not have the columns that rows are
/// sorted by.
pub open spec fn is_first_unsorted(
    incoming: Seq<(usize, DataBlock)>,
    by: Seq<SortColumnDescription>,
    s: int,
) -> bool {
    &&& 0 <= s < incoming.len()
    &&& incoming[s].1.rows() > 0
    &&& !has_sort_columns(incoming[s].1, by)
    &&& forall|t: int|
        0 <= t < s && (#[trigger] incoming[t]).1.rows() > 0 ==> has_sort_columns(incoming[t].1, by)
}

/// The inputs that blocks have come from.
pub open spec fn inputs_of(incoming: Seq<(usize, DataBlock)>) -> Seq<usize> {
    incoming.map_values(|b: (usize, DataBlock)| b.0)
}

/// Comparators could not be built: the error names a column that rows are sorted by and that is not
/// in the first two blocks that are compared and do not both have all. The comparators of the
/// blocks before them are built and no others, and no row has come to wait.
pub open spec fn comparing_failed(
    before: MultiSortMergeProcessor,
    incoming: Seq<(usize, DataBlock)>,
    after: MultiSortMergeProcessor,
    e: ErrorCode,
) -> bool {
    &&& after == (MultiSortMergeProcessor {
        blocks: after.blocks,
        compare_map: after.compare_map,
        state: ProcessorState::Consume,
        ..before
    })
    &&& is_square(after.compare_map, before.n())
    &&& exists|i: int, s: int|
        {
            &&& #[trigger] after.is_first_failing_pair(inputs_of(incoming), i, s)
            &&& names_missing_column(
                e,
                after.blocks_of(i).last(),
                incoming[s].1,
                after.sort_by(),
            )
            &&& after.map_built(before.compare_map, inputs_of(incoming), i, s)
        }
}

/// All blocks could be compared, and a cursor could not be made: the error names a column that rows
/// are sorted by and that is not in the first block that has come and has not all. The rows of the
/// blocks before it wait.
pub open spec fn entering_failed(
    before: MultiSortMergeProcessor,
    incoming: Seq<(usize, DataBlock)>,
    after: MultiSortMergeProcessor,
    e: ErrorCode,
) -> bool {
    let by = before.sort_by();
    &&& after == (MultiSortMergeProcessor {
        blocks: after.blocks,
        compare_map: after.compare_map,
        cursor_finished: after.cursor_finished,
        heap: after.heap,
        history: after.history,
        state: ProcessorState::Consume,
        ..before
    })
    &&& after.map_ok()
    &&& after.map_built(before.compare_map, inputs_of(incoming), before.n(), 0)
    &&& after.history@ == (History {
        arrived: arrived_with(before, incoming),
        ..before.history@
    })
    &&& exists|s: int|
        {
            &&& #[trigger] is_first_unsorted(incoming, by, s)
            &&& names_missing_column(e, incoming[s].1, incoming[s].1, by)
            &&& after.heads() == heads_with(before.heads(), incoming, by, s)
            &&& after.cursor_finished@ == flags_with(before.cursor_finished@, incoming, s)
        }
}

/// The last block of input `i` is compared with a block that has come.
pub open spec fn is_compared(
    kept: MultiSortMergeProcessor,
    incoming: Seq<(usize, DataBlock)>,
    i: int,
    s: int,
) -> bool {
    0 <= i < kept.n() && i != incoming[s].0 && kept.blocks_of(i).len() > 0
}

/// The first row of a block of an input.
pub open spec fn first_head(
    input: int,
    block: DataBlock,
    by: Seq<SortColumnDescription>,
) -> Head {
    Head { input, row: 0, rows: block.rows() as int, columns: sort_columns(block, by) }
}

/// The rows that wait, with the first rows of the first `t` blocks that have come.
pub open spec fn heads_with(
    heads: Seq<Head>,
    incoming: Seq<(usize, DataBlock)>,
    by: Seq<SortColumnDescription>,
    t: int,
) -> Seq<Head>
    decreases t,
{
    if t <= 0 {
        heads
    } else {
        let earlier = heads_with(heads, incoming, by, t - 1);
        let (input, block) = incoming[t - 1];
        if block.rows() > 0 {
            place(earlier, first_head(input as int, block, by), by)
        } else {
            earlier
        }
    }
}

/// Which inputs have no row that waits, once the first rows of `t` blocks wait.
pub open spec fn flags_with(
    flags: Seq<bool>,
    incoming: Seq<(usize, DataBlock)>,
    t: int,
) -> Seq<bool>
    decreases t,
{
    if t <= 0 {
        flags
    } else {
        let earlier = flags_with(flags, incoming, t - 1);
        if incoming[t - 1].1.rows() > 0 {
            earlier.update(incoming[t - 1].0 as int, false)
        } else {
            earlier
        }
    }
}

/// The rows of input `i` with those of the block that comes from it.
pub open spec fn arrived_with(
    before: MultiSortMergeProcessor,
    incoming: Seq<(usize, DataBlock)>,
) -> Seq<Seq<Row>> {
    Seq::new(
        before.history@.arrived.len(),
        |i: int|
            if has_incoming(incoming, i) {
                before.history@.arrived[i] + block_rows(
                    incoming_from(incoming, i),
                    before.sort_by(),
                    before.width(),
                )
            } else {
                before.history@.arrived[i]
            },
    )
}

/// The first rows of the blocks that have come wait, and nothing was merged yet.
pub open spec fn entered(
    before: MultiSortMergeProcessor,
    incoming: Seq<(usize, DataBlock)>,
    after: MultiSortMergeProcessor,
) -> bool {
    &&& after == (MultiSortMergeProcessor {
        blocks: after.blocks,
        compare_map: after.compare_map,
        cursor_finished: after.cursor_finished,
        heap: after.heap,
        history: after.history,
        state: ProcessorState::Consume,
        ..before
    })
    &&& keeps(before.blocks@, incoming, after.blocks@)
    &&& is_square(after.compare_map, before.n())
    &&& after.map_built(before.compare_map, inputs_of(incoming), before.n(), 0)
    &&& after.heads() == heads_with(
        before.heads(),
        incoming,
        before.sort_by(),
        incoming.len() as int,
    )
    &&& after.cursor_finished@ == flags_with(
        before.cursor_finished@,
        incoming,
        incoming.len() as int,
    )
    &&& after.history@ == (History {
        arrived: arrived_with(before, incoming),
        ..before.history@
    })
}

/// Inputs of blocks that have come from the `t`-th on.
spec fn pending_from(incoming: Seq<(usize, DataBlock)>, t: int) -> Set<int> {
    Set::new(|i: int| exists|s: int| t <= s && comes_from(incoming, i, s))
}

proof fn lemma_incoming_from(
    before: MultiSortMergeProcessor,
    incoming: Seq<(usize, DataBlock)>,
    s: int,
)
    requires
        before.incoming_ok(incoming),
        0 <= s < incoming.len(),
    ensures
        has_incoming(incoming, incoming[s].0 as int),
        incoming_from(incoming, incoming[s].0 as int) == incoming[s].1,
{
    let i = incoming[s].0 as int;
    assert(comes_from(incoming, i, s));
    let t = choose|t: int| comes_from(incoming, i, t);
    if s < t {
        assert(incoming[s].0 != incoming[t].0);
    } else if t < s {
        assert(incoming[t].0 != incoming[s].0);
    }
}

/// The blocks of an input once the first `t` blocks that have come are kept.
spec fn kept_so_far(
    blocks: Seq<DataBlock>,
    incoming: Seq<(usize, DataBlock)>,
    i: int,
    t: int,
) -> Seq<DataBlock> {
    if exists|s: int| s < t && comes_from(incoming, i, s) {
        blocks.push(incoming_from(incoming, i))
    } else {
        blocks
    }
}

impl MultiSortMergeProcessor {
    /// Keeps the blocks that have come, each behind the others of its input, and returns the
    /// inputs that they come from.
    fn keep_blocks(&mut self, incoming: Vec<(usize, DataBlock)>) -> (r: Vec<usize>)
        requires
            old(self).shape(),
            old(self).incoming_ok(incoming@),
        ensures
            *final(self) == (MultiSortMergeProcessor {
                blocks: final(self).blocks,
                ..*old(self)
            }),
            keeps(old(self).blocks@, incoming@, final(self).blocks@),
            r@.len() == incoming@.len(),
            forall|s: int| 0 <= s < r@.len() ==> #[trigger] r@[s] == incoming@[s].0,
    {
        let ghost all = incoming@;
        let mut added: Vec<usize> = Vec::with_capacity(incoming.len());
        for item in it: incoming
            invariant
                it.seq() == all,
                old(self).shape(),
                old(self).incoming_ok(all),
                *self == (MultiSortMergeProcessor { blocks: self.blocks, ..*old(self) }),
                self.blocks@.len() == old(self).blocks@.len(),
                added@.len() == it.index(),
                forall|s: int| 0 <= s < added@.len() ==> #[trigger] added@[s] == all[s].0,
                forall|i: int|
                    0 <= i < self.blocks@.len() ==> #[trigger] self.blocks_of(i) == kept_so_far(
                        old(self).blocks_of(i),
                        all,
                        i,
                        it.index() as int,
                    ),
        {
            let (input_index, block) = item;
            let ghost t = it.index() as int;
            let ghost before = *self;
            assert(all[t] == (input_index, block));
            self.blocks[input_index].push_back(block);
            added.push(input_index);
            proof {
                lemma_incoming_from(*old(self), all, t);
                assert forall|i: int|
                    0 <= i < self.blocks@.len() implies #[trigger] self.blocks_of(i)
                    == kept_so_far(old(self).blocks_of(i), all, i, t + 1) by {
                    assert(before.blocks_of(i) == kept_so_far(old(self).blocks_of(i), all, i, t));
                    if i == input_index {
                        assert(comes_from(all, i, t));
                        assert forall|s: int| s < t implies !comes_from(all, i, s) by {
                            if comes_from(all, i, s) {
                                assert(all[s].0 != all[t].0);
                            }
                        }
                    } else {
                        if exists|s: int| s < t + 1 && comes_from(all, i, s) {
                            let s = choose|s: int| s < t + 1 && comes_from(all, i, s);
                            assert(s < t);
                        }
                        assert(self.blocks_of(i) == before.blocks_of(i));
                    }
                }
            }
        }
        proof {
            assert forall|i: int|
                0 <= i < old(self).blocks@.len() implies (#[trigger] self.blocks@[i])@
                == with_incoming(old(self).blocks@[i]@, all, i) by {
                assert(self.blocks_of(i) == kept_so_far(
                    old(self).blocks_of(i),
                    all,
                    i,
                    all.len() as int,
                ));
                if has_incoming(all, i) {
                    let s = choose|s: int| comes_from(all, i, s);
                    assert(s < all.len() && comes_from(all, i, s));
                }
            }
        }
        added
    }
}

impl MultiSortMergeProcessor {
    /// Adds comparators for new blocks. A new block is the last one of its input.
    pub fn build_compare_map(&mut self, added: &Vec<usize>) -> (r: Result<(), ErrorCode>)
        requires
            old(self).blocks@.len() == old(self).n(),
            is_square(old(self).compare_map, old(self).n()),
            forall|i: int, b: int|
                0 <= i < old(self).n() && 0 <= b < old(self).blocks_of(i).len()
                    ==> old(self).fits(#[trigger] old(self).blocks@[i]@[b]),
            forall|s: int|
                0 <= s < added@.len() ==> (#[trigger] added@[s]) < old(self).n() && old(
                    self
                ).blocks_of(added@[s] as int).len() > 0,
        ensures
            *final(self) == (MultiSortMergeProcessor {
                compare_map: final(self).compare_map,
                ..*old(self)
            }),
            is_square(final(self).compare_map, old(self).n()),
            r is Ok <==> forall|i: int, s: int|
                old(self).is_pair(added@, i, s) ==> #[trigger] old(self).has_columns_for(
                    i,
                    added@[s] as int,
                ),
            r is Ok ==> final(self).map_built(
                old(self).compare_map,
                added@,
                old(self).n(),
                0,
            ),
            r matches Err(e) ==> exists|i: int, s: int|
                {
                    &&& #[trigger] old(self).is_first_failing_pair(added@, i, s)
                    &&& names_missing_column(
                        e,
                        old(self).blocks_of(i).last(),
                        old(self).blocks_of(added@[s] as int).last(),
                        old(self).sort_by(),
                    )
                    &&& final(self).map_built(old(self).compare_map, added@, i, s)
                },
    {
        let n: usize = self.inputs.len();
        let mut i: usize = 0;
        while i < n
            invariant
                i <= n,
                n == old(self).n(),
                *self == (MultiSortMergeProcessor {
                    compare_map: self.compare_map,
                    ..*old(self)
                }),
                self.map_in_progress(*old(self), added@, i as int, 0),
                old(self).has_columns_before(added@, i as int, 0),
            decreases n - i,
        {
            let mut s: usize = 0;
            while s < added.len()
                invariant
                    i < n,
                    n == old(self).n(),
                    s <= added@.len(),
                    *self == (MultiSortMergeProcessor {
                        compare_map: self.compare_map,
                        ..*old(self)
                    }),
                    self.map_in_progress(*old(self), added@, i as int, s as int),
                    old(self).has_columns_before(added@, i as int, s as int),
                decreases added@.len() - s,
            {
                let j: usize = added[s];
                let ghost before = *self;
                if i != j && self.blocks[i].len() > 0 {
                    let left = &self.blocks[i][self.blocks[i].len() - 1];
                    let right = &self.blocks[j][self.blocks[j].len() - 1];
                    assert(*left == self.blocks_of(i as int).last());
                    assert(*right == self.blocks_of(j as int).last());
                    assert(self.fits(
                        self.blocks@[i as int]@[self.blocks_of(i as int).len() - 1],
                    ));
                    assert(self.fits(
                        self.blocks@[j as int]@[self.blocks_of(j as int).len() - 1],
                    ));
                    let comparators = match build_compare(
                        left,
                        right,
                        &self.sort_columns_descriptions,
                    ) {
                        Ok(comparators) => comparators,
                        Err(e) => {
                            assert(!old(self).has_columns_for(i as int, added@[s as int] as int));
                            assert(old(self).is_first_failing_pair(added@, i as int, s as int));
                            return Err(e);
                        },
                    };
                    let reversed = match build_compare(
                        right,
                        left,
                        &self.sort_columns_descriptions,
                    ) {
                        Ok(comparators) => comparators,
                        Err(e) => {
                            return Err(e);
                        },
                    };
                    self.compare_map[i][j] = comparators;
                    self.compare_map[j][i] = reversed;
                    proof {
                        lemma_pair_built(*old(self), before, *self, added@, i as int, s as int);
                    }
                } else {
                    proof {
                        lemma_pair_skipped(*old(self), *self, added@, i as int, s as int);
                    }
                }
                s = s + 1;
            }
            i = i + 1;
            proof {
                lemma_input_covered(*old(self), *self, added@, i as int);
            }
        }
        proof {
            lemma_map_built(*old(self), *self, added@);
        }
        Ok(())
    }

    /// The comparators that compare input `a` with input `b` come from the pair of input `a` and
    /// the `t`-th new block, before input `i` comes to the `s`-th.
    pub open spec fn is_built_by(
        self,
        added: Seq<usize>,
        a: int,
        b: int,
        i: int,
        s: int,
        t: int,
    ) -> bool {
        self.is_pair(added, a, t) && added[t] == b && (a < i || (a == i && t < s))
    }

    /// The comparators of the two inputs are built before input `i` comes to the `s`-th new block.
    pub open spec fn is_built(self, added: Seq<usize>, a: int, b: int, i: int, s: int) -> bool {
        ||| exists|t: int| self.is_built_by(added, a, b, i, s, t)
        ||| exists|t: int| self.is_built_by(added, b, a, i, s, t)
    }

    /// If the comparators of the two inputs are built before input `i` comes to the `s`-th new
    /// block, they compare the last blocks. If not, they are those of `before`.
    pub open spec fn is_cell_built(
        self,
        before: CompareMap,
        added: Seq<usize>,
        i: int,
        s: int,
        a: int,
        b: int,
    ) -> bool {
        if self.is_built(added, a, b, i, s) {
            self.comparable(a, b)
        } else {
            comparators_of(self.compare_map, a, b) == comparators_of(before, a, b)
        }
    }

    /// The comparators that are built before input `i` comes to the `s`-th new block compare last
    /// blocks, and all others are those of `before`.
    pub open spec fn map_built(
        self,
        before: CompareMap,
        added: Seq<usize>,
        i: int,
        s: int,
    ) -> bool {
        forall|a: int, b: int|
            0 <= a < self.n() && 0 <= b < self.n() ==> #[trigger] self.is_cell_built(
                before,
                added,
                i,
                s,
                a,
                b,
            )
    }

    /// The last block of input `i` is compared with the `s`-th new block.
    pub open spec fn is_pair(self, added: Seq<usize>, i: int, s: int) -> bool {
        0 <= i < self.n() && 0 <= s < added.len() && i != added[s] && self.blocks_of(i).len() > 0
    }

    /// The blocks that are compared before input `i` comes to the `s`-th new block have the
    /// columns that rows are sorted by.
    pub open spec fn has_columns_before(self, added: Seq<usize>, i: int, s: int) -> bool {
        forall|a: int, t: int|
            #[trigger] self.is_pair(added, a, t) && (a < i || (a == i && t < s))
                ==> self.has_columns_for(a, added[t] as int)
    }

    /// The last block of input `i` and the `s`-th new block are the first that are compared and
    /// do not have the columns that rows are sorted by.
    pub open spec fn is_first_failing_pair(self, added: Seq<usize>, i: int, s: int) -> bool {
        &&& self.is_pair(added, i, s)
        &&& !self.has_columns_for(i, added[s] as int)
        &&& self.has_columns_before(added, i, s)
    }

    /// The last blocks of the two inputs have the columns that rows are sorted by.
    pub open spec fn has_columns_for(self, i: int, j: int) -> bool {
        &&& has_sort_columns(self.blocks_of(i).last(), self.sort_by())
        &&& has_sort_columns(self.blocks_of(j).last(), self.sort_by())
    }

    /// Comparators have been built up to input `i` and the `s`-th new block.
    spec fn map_in_progress(
        self,
        start: MultiSortMergeProcessor,
        added: Seq<usize>,
        i: int,
        s: int,
    ) -> bool {
        &&& start.blocks@.len() == start.n()
        &&& forall|a: int, b: int|
            0 <= a < start.n() && 0 <= b < start.blocks_of(a).len() ==> start.fits(
                #[trigger] start.blocks@[a]@[b],
            )
        &&& forall|t: int|
            0 <= t < added.len() ==> (#[trigger] added[t]) < start.n() && start.blocks_of(
                added[t] as int,
            ).len() > 0
        &&& is_square(self.compare_map, start.n())
        &&& self.map_built(start.compare_map, added, i, s)
    }
}

/// One pair more adds the comparators of its two inputs.
proof fn lemma_built_step(
    p: MultiSortMergeProcessor,
    added: Seq<usize>,
    a: int,
    b: int,
    i: int,
    s: int,
)
    requires
        0 <= s < added.len(),
    ensures
        p.is_built(added, a, b, i, s + 1) <==> p.is_built(added, a, b, i, s) || (p.is_pair(
            added,
            i,
            s,
        ) && ((a == i && b == added[s]) || (a == added[s] && b == i))),
{
    let u = s + 1;
    if p.is_built(added, a, b, i, s) {
        if exists|t: int| p.is_built_by(added, a, b, i, s, t) {
            let t = choose|t: int| p.is_built_by(added, a, b, i, s, t);
            assert(p.is_built_by(added, a, b, i, u, t));
        } else {
            let t = choose|t: int| p.is_built_by(added, b, a, i, s, t);
            assert(p.is_built_by(added, b, a, i, u, t));
        }
    }
    if p.is_pair(added, i, s) {
        if a == i && b == added[s] {
            assert(p.is_built_by(added, a, b, i, u, s));
        }
        if a == added[s] && b == i {
            assert(p.is_built_by(added, b, a, i, u, s));
        }
    }
    if p.is_built(added, a, b, i, u) {
        if exists|t: int| p.is_built_by(added, a, b, i, u, t) {
            let t = choose|t: int| p.is_built_by(added, a, b, i, u, t);
            if !(a == i && t == s) {
                assert(p.is_built_by(added, a, b, i, s, t));
            }
        } else {
            let t = choose|t: int| p.is_built_by(added, b, a, i, u, t);
            if !(b == i && t == s) {
                assert(p.is_built_by(added, b, a, i, s, t));
            }
        }
    }
}

/// After the last new block comes the next input.
proof fn lemma_built_input(p: MultiSortMergeProcessor, added: Seq<usize>, a: int, b: int, i: int)
    ensures
        p.is_built(added, a, b, i, 0) <==> p.is_built(added, a, b, i - 1, added.len() as int),
{
    let n = added.len() as int;
    let h = i - 1;
    assert forall|t: int|
        p.is_built_by(added, a, b, i, 0, t) == p.is_built_by(added, a, b, h, n, t)
            && p.is_built_by(added, b, a, i, 0, t) == p.is_built_by(added, b, a, h, n, t) by {}
}

proof fn lemma_pair_built(
    start: MultiSortMergeProcessor,
    before: MultiSortMergeProcessor,
    after: MultiSortMergeProcessor,
    added: Seq<usize>,
    i: int,
    s: int,
)
    requires
        before == (MultiSortMergeProcessor { compare_map: before.compare_map, ..start }),
        after == (MultiSortMergeProcessor { compare_map: after.compare_map, ..start }),
        start.is_pair(added, i, s),
        before.map_in_progress(start, added, i, s),
        is_square(after.compare_map, start.n()),
        after.comparable(i, added[s] as int),
        after.comparable(added[s] as int, i),
        forall|a: int, b: int|
            0 <= a < start.n() && 0 <= b < start.n() && !(a == i && b == added[s]) && !(a
                == added[s] && b == i) ==> #[trigger] comparators_of(after.compare_map, a, b)
                == comparators_of(before.compare_map, a, b),
    ensures
        after.map_in_progress(start, added, i, s + 1),
{
    assert forall|a: int, b: int| 0 <= a < after.n() && 0 <= b < after.n() implies
        #[trigger] after.is_cell_built(start.compare_map, added, i, s + 1, a, b) by {
        lemma_built_step(after, added, a, b, i, s);
        lemma_same_built(before, after, added, a, b, i, s);
        if !(a == i && b == added[s]) && !(a == added[s] && b == i) {
            assert(comparators_of(after.compare_map, a, b) == comparators_of(
                before.compare_map,
                a,
                b,
            ));
            assert(before.is_cell_built(start.compare_map, added, i, s, a, b));
        }
    }
}

/// Which comparators are built does not depend on the comparators and cursors.
proof fn lemma_same_built(
    before: MultiSortMergeProcessor,
    after: MultiSortMergeProcessor,
    added: Seq<usize>,
    a: int,
    b: int,
    i: int,
    s: int,
)
    requires
        after.blocks == before.blocks,
        after.inputs == before.inputs,
    ensures
        after.is_built(added, a, b, i, s) == before.is_built(added, a, b, i, s),
{
    assert forall|t: int|
        after.is_built_by(added, a, b, i, s, t) == before.is_built_by(added, a, b, i, s, t)
            && after.is_built_by(added, b, a, i, s, t) == before.is_built_by(
            added,
            b,
            a,
            i,
            s,
            t,
        ) by {}
}

proof fn lemma_pair_skipped(
    start: MultiSortMergeProcessor,
    after: MultiSortMergeProcessor,
    added: Seq<usize>,
    i: int,
    s: int,
)
    requires
        0 <= s < added.len(),
        !after.is_pair(added, i, s),
        after.map_in_progress(start, added, i, s),
    ensures
        after.map_in_progress(start, added, i, s + 1),
{
    assert forall|a: int, b: int| 0 <= a < after.n() && 0 <= b < after.n() implies
        #[trigger] after.is_cell_built(start.compare_map, added, i, s + 1, a, b) by {
        lemma_built_step(after, added, a, b, i, s);
        assert(after.is_cell_built(start.compare_map, added, i, s, a, b));
    }
}

proof fn lemma_input_covered(
    start: MultiSortMergeProcessor,
    after: MultiSortMergeProcessor,
    added: Seq<usize>,
    i: int,
)
    requires
        after.map_in_progress(start, added, i - 1, added.len() as int),
    ensures
        after.map_in_progress(start, added, i, 0),
{
    assert forall|a: int, b: int| 0 <= a < after.n() && 0 <= b < after.n() implies
        #[trigger] after.is_cell_built(start.compare_map, added, i, 0, a, b) by {
        lemma_built_input(after, added, a, b, i);
        assert(after.is_cell_built(
            start.compare_map,
            added,
            i - 1,
            added.len() as int,
            a,
            b,
        ));
    }
}

/// Once all pairs are built, the last blocks of every pair can be compared both ways, so they have
/// the columns that rows are sorted by, and comparators of inputs without a new block are as before.
proof fn lemma_map_built(
    start: MultiSortMergeProcessor,
    after: MultiSortMergeProcessor,
    added: Seq<usize>,
)
    requires
        after == (MultiSortMergeProcessor { compare_map: after.compare_map, ..start }),
        forall|t: int| 0 <= t < added.len() ==> (#[trigger] added[t]) < start.n(),
        after.map_built(start.compare_map, added, start.n(), 0),
    ensures
        forall|i: int, s: int|
            start.is_pair(added, i, s) ==> {
                &&& #[trigger] after.comparable(i, added[s] as int)
                &&& after.comparable(added[s] as int, i)
            },
        forall|i: int, s: int|
            start.is_pair(added, i, s) ==> #[trigger] start.has_columns_for(i, added[s] as int),
        forall|a: int, b: int|
            0 <= a < start.n() && 0 <= b < start.n() && !added.contains(a as usize)
                && !added.contains(b as usize) ==> #[trigger] comparators_of(
                after.compare_map,
                a,
                b,
            ) == comparators_of(start.compare_map, a, b),
{
    let n = start.n();
    assert forall|i: int, s: int| start.is_pair(added, i, s) implies {
        &&& #[trigger] after.comparable(i, added[s] as int)
        &&& after.comparable(added[s] as int, i)
    } by {
        let j = added[s] as int;
        assert(after.is_built_by(added, i, j, n, 0, s));
        assert(after.is_built(added, i, j, n, 0));
        assert(after.is_built(added, j, i, n, 0));
        assert(after.is_cell_built(start.compare_map, added, n, 0, i, j));
        assert(after.is_cell_built(start.compare_map, added, n, 0, j, i));
    }
    assert forall|i: int, s: int| start.is_pair(added, i, s) implies #[trigger] start.has_columns_for(
        i,
        added[s] as int,
    ) by {
        assert(after.comparable(i, added[s] as int));
    }
    assert forall|a: int, b: int|
        0 <= a < start.n() && 0 <= b < start.n() && !added.contains(a as usize)
            && !added.contains(b as usize) implies #[trigger] comparators_of(
        after.compare_map,
        a,
        b,
    ) == comparators_of(start.compare_map, a, b) by {
        assert(after.is_cell_built(start.compare_map, added, n, 0, a, b));
        if after.is_built(added, a, b, n, 0) {
            let t = if exists|t: int| after.is_built_by(added, a, b, n, 0, t) {
                choose|t: int| after.is_built_by(added, a, b, n, 0, t)
            } else {
                choose|t: int| after.is_built_by(added, b, a, n, 0, t)
            };
            assert(added.contains(added[t]));
        }
    }
}

/// What holds of the comparators does not depend on the cursors and the history.
proof fn lemma_same_cells(
    before: MultiSortMergeProcessor,
    after: MultiSortMergeProcessor,
    map: CompareMap,
    added: Seq<usize>,
    i: int,
    s: int,
)
    requires
        before.map_built(map, added, i, s),
        after.blocks == before.blocks,
        after.inputs == before.inputs,
        after.compare_map == before.compare_map,
        after.sort_columns_descriptions == before.sort_columns_descriptions,
    ensures
        after.map_built(map, added, i, s),
{
    assert forall|a: int, b: int| 0 <= a < after.n() && 0 <= b < after.n() implies
        #[trigger] after.is_cell_built(map, added, i, s, a, b) by {
        lemma_same_built(before, after, added, a, b, i, s);
        assert(before.is_cell_built(map, added, i, s, a, b));
    }
}

/// Rows of inputs that more rows came from are the same as before.
proof fn lemma_rows_stay(
    before: MultiSortMergeProcessor,
    incoming: Seq<(usize, DataBlock)>,
    i: int,
    k: int,
)
    requires
        0 <= i < before.history@.arrived.len(),
        0 <= k < before.history@.arrived[i].len(),
    ensures
        arrived_with(before, incoming)[i][k] == before.history@.arrived[i][k],
        arrived_with(before, incoming)[i].len() >= before.history@.arrived[i].len(),
{
}

/// Keeping the blocks that have come, with comparators for them, keeps what holds of the rest.
#[verifier::spinoff_prover]
#[verifier::rlimit(30)]
proof fn lemma_kept(
    before: MultiSortMergeProcessor,
    after: MultiSortMergeProcessor,
    incoming: Seq<(usize, DataBlock)>,
)
    requires
        before.sound(),
        before.incoming_ok(incoming),
        after == (MultiSortMergeProcessor {
            blocks: after.blocks,
            compare_map: after.compare_map,
            history: after.history,
            state: after.state,
            ..before
        }),
        keeps(before.blocks@, incoming, after.blocks@),
        after.history@ == (History {
            arrived: arrived_with(before, incoming),
            ..before.history@
        }),
        is_square(after.compare_map, before.n()),
        after.map_ok(),
    ensures
        after.sound_except(pending_from(incoming, 0)),
{
    let pending = pending_from(incoming, 0);
    let emitted = before.history@.emitted;
    let arrived = before.history@.arrived;
    let more = after.history@.arrived;
    let by = before.sort_by();
    let width = before.width();
    assert forall|i: int| #[trigger] pending.contains(i) <==> has_incoming(incoming, i) by {
        if has_incoming(incoming, i) {
            let s = choose|s: int| comes_from(incoming, i, s);
            assert(0 <= s && comes_from(incoming, i, s));
        }
    }
    assert forall|i: int| #[trigger] has_incoming(incoming, i) implies {
        &&& 0 <= i < before.n()
        &&& before.cursor_finished@[i]
        &&& !before.input_finished@[i]
        &&& before.fits(incoming_from(incoming, i))
    } by {
        let s = choose|s: int| comes_from(incoming, i, s);
        assert(before.incoming_ok(incoming));
        assert(incoming[s].0 < before.n());
    }
    assert(after.blocks_ok()) by {
        assert forall|i: int| 0 <= i < after.n() implies #[trigger] ends_with(
            more[i],
            after.blocks_of(i),
            by,
            width,
        ) by {
            assert(ends_with(arrived[i], before.blocks_of(i), by, width));
            assert(after.blocks_of(i) == with_incoming(before.blocks_of(i), incoming, i));
            if has_incoming(incoming, i) {
                lemma_ends_with_push(
                    arrived[i],
                    before.blocks_of(i),
                    incoming_from(incoming, i),
                    by,
                    width,
                );
            }
        }
        assert forall|i: int, b: int|
            0 <= i < after.n() && 0 <= b < after.blocks_of(i).len() implies after.fits(
            #[trigger] after.blocks@[i]@[b],
        ) by {
            assert(after.blocks_of(i) == with_incoming(before.blocks_of(i), incoming, i));
            if b < before.blocks_of(i).len() {
                assert(before.fits(before.blocks@[i]@[b]));
            } else {
                assert(has_incoming(incoming, i));
            }
        }
    }
    assert(after.heap_ok()) by {
        assert forall|p: int|
            #![trigger after.heap.cursors@[p]]
            0 <= p < after.heap.cursors@.len() implies after.cursor_ok(after.heap.cursors@[p]) by {
            let c = before.heap.cursors@[p];
            assert(before.cursor_ok(c));
            assert(!has_incoming(incoming, c.input_index as int));
            assert(after.blocks_of(c.input_index as int) == before.blocks_of(
                c.input_index as int,
            ));
        }
    }
    assert(after.rows_ok()) by {
        assert forall|k: int| 0 <= k < after.in_progess_rows@.len() implies #[trigger] after.row_ok(
            k,
        ) by {
            assert(before.row_ok(k));
            let (i, b, r) = before.in_progess_rows@[k];
            assert(after.blocks_of(i as int) == with_incoming(
                before.blocks_of(i as int),
                incoming,
                i as int,
            ));
            if has_incoming(incoming, i as int) {
                lemma_tail_rows_push(
                    before.blocks_of(i as int),
                    incoming_from(incoming, i as int),
                    b as int,
                );
            }
        }
    }
    assert forall|i: int| #[trigger] pending.contains(i) implies after.is_pending(i) by {
        assert(has_incoming(incoming, i));
        assert(after.blocks_of(i) == with_incoming(before.blocks_of(i), incoming, i));
        assert(before.taken(i) == arrived[i].len());
        assert(more[i].len() == arrived[i].len() + incoming_from(incoming, i).rows());
    }
    assert forall|i: int|
        0 <= i < after.n() && after.cursor_finished@[i] && !pending.contains(
            i,
        ) implies #[trigger] after.taken(i) == more[i].len() by {
        assert(before.taken(i) == arrived[i].len());
        assert(!has_incoming(incoming, i));
    }
    assert forall|p: int|
        #![trigger after.heap.cursors@[p]]
        0 <= p < after.heap.cursors@.len() implies after.all_but_rest_taken(
        after.heap.cursors@[p],
    ) by {
        let c = before.heap.cursors@[p];
        assert(before.cursor_ok(c));
        assert(before.all_but_rest_taken(c));
        assert(!has_incoming(incoming, c.input_index as int));
    }
    assert forall|k: int|
        #![trigger emitted[k]]
        0 <= k < emitted.len() implies emitted[k].1 < more[emitted[k].0].len() by {
        lemma_rows_stay(before, incoming, emitted[k].0, emitted[k].1);
    }
    if inputs_sorted(more, by) {
        assert(inputs_sorted(arrived, by)) by {
            assert forall|i: int, a: int, b: int|
                0 <= i < arrived.len() && 0 <= a <= b < arrived[i].len() implies
                crate::merge::order::key_order(
                (#[trigger] arrived[i][a]).key,
                (#[trigger] arrived[i][b]).key,
                by,
            ) <= 0 by {
                lemma_rows_stay(before, incoming, i, a);
                lemma_rows_stay(before, incoming, i, b);
                assert(more[i][a] == arrived[i][a] && more[i][b] == arrived[i][b]);
            }
        }
        assert(before.sorted_so_far());
        assert forall|a: int, b: int| 0 <= a < b < emitted.len() implies entry_order(
            more,
            #[trigger] emitted[a],
            #[trigger] emitted[b],
            by,
        ) <= 0 by {
            lemma_rows_stay(before, incoming, emitted[a].0, emitted[a].1);
            lemma_rows_stay(before, incoming, emitted[b].0, emitted[b].1);
            assert(entry_order(arrived, emitted[a], emitted[b], by) <= 0);
        }
        if emitted.len() > 0 {
            assert forall|p: int|
                #![trigger after.heap.cursors@[p]]
                0 <= p < after.heap.cursors@.len() implies after.not_before_last(
                after.heap.cursors@[p],
            ) by {
                let c = before.heap.cursors@[p];
                assert(before.not_before_last(c));
                assert(before.cursor_ok(c));
                assert(before.all_but_rest_taken(c));
                assert(c.row_index < c.num_rows);
                let last = emitted[emitted.len() - 1];
                lemma_rows_stay(before, incoming, last.0, last.1);
                lemma_rows_stay(
                    before,
                    incoming,
                    c.input_index as int,
                    before.taken(c.input_index as int) as int,
                );
            }
        }
        assert(after.sorted_so_far());
    }
    assert(after.history_ok(pending));
}

/// A block that has come and has no rows needs no cursor.
proof fn lemma_no_rows(p: MultiSortMergeProcessor, pending: Set<int>, i: int)
    requires
        p.sound_except(pending),
        pending.contains(i),
        p.blocks_of(i).last().rows() == 0,
    ensures
        p.sound_except(pending.remove(i)),
{
    let rest = pending.remove(i);
    assert(p.is_pending(i));
    assert forall|j: int| #[trigger] rest.contains(j) implies p.is_pending(j) by {
        assert(pending.contains(j));
    }
    assert forall|j: int|
        0 <= j < p.n() && p.cursor_finished@[j] && !rest.contains(j) implies #[trigger] p.taken(j)
        == p.history@.arrived[j].len() by {
        if j != i {
            assert(!pending.contains(j));
        }
    }
    if p.history@.emitted.len() > 0 {
        assert forall|j: int|
            0 <= j < p.n() && #[trigger] p.cursor_finished@[j] && !rest.contains(j) implies
            p.input_finished@[j] || p.history@.emitted.last().0 == j by {
            if j != i {
                assert(!pending.contains(j));
            }
        }
    }
}

/// The cursor at the first row of a block that has come may wait with the others.
#[verifier::spinoff_prover]
#[verifier::rlimit(30)]
proof fn lemma_enter(
    before: MultiSortMergeProcessor,
    after: MultiSortMergeProcessor,
    pending: Set<int>,
    cursor: Cursor,
    at: int,
)
    requires
        before.sound_except(pending),
        pending.contains(cursor.input_index as int),
        cursor.row_index == 0,
        cursor.is_in(
            cursor.input_index as int,
            before.blocks_of(cursor.input_index as int).last(),
            before.sort_by(),
        ),
        0 <= at <= before.heap.cursors@.len(),
        after == (MultiSortMergeProcessor {
            heap: after.heap,
            cursor_finished: after.cursor_finished,
            ..before
        }),
        after.heap.wf(before.sort_by()),
        after.heap.cursors@ == before.heap.cursors@.insert(at, cursor),
        after.cursor_finished@ == before.cursor_finished@.update(
            cursor.input_index as int,
            false,
        ),
    ensures
        after.sound_except(pending.remove(cursor.input_index as int)),
{
    let i = cursor.input_index as int;
    let rest = pending.remove(i);
    let emitted = before.history@.emitted;
    let arrived = before.history@.arrived;
    let by = before.sort_by();
    let cursors = before.heap.cursors@;
    assert(before.is_pending(i));
    lemma_count_unset_update(before.cursor_finished@, i, false);
    assert forall|p: int|
        #![trigger after.heap.cursors@[p]]
        0 <= p < after.heap.cursors@.len() && p != at implies {
        let c = after.heap.cursors@[p];
        before.cursor_ok(c) && before.all_but_rest_taken(c) && c.input_index != i
            && c == cursors[if p < at { p } else { p - 1 }]
    } by {
        let q = if p < at { p } else { p - 1 };
        assert(after.heap.cursors@[p] == cursors[q]);
        assert(before.cursor_ok(cursors[q]));
        assert(before.all_but_rest_taken(cursors[q]));
    }
    assert forall|p: int|
        #![trigger after.heap.cursors@[p]]
        0 <= p < after.heap.cursors@.len() implies after.cursor_ok(after.heap.cursors@[p])
        && after.all_but_rest_taken(after.heap.cursors@[p]) by {
        let c = after.heap.cursors@[p];
        if p != at {
            assert(before.cursor_ok(c));
            assert(after.taken(c.input_index as int) == before.taken(c.input_index as int));
        }
    }
    assert(after.map_ok()) by {
        assert forall|a: int, b: int|
            0 <= a < after.n() && 0 <= b < after.n() && a != b && after.blocks_of(a).len() > 0
                && after.blocks_of(b).len() > 0 implies #[trigger] after.comparable(a, b) by {
            assert(before.comparable(a, b));
        }
    }
    assert(after.rows_ok()) by {
        assert forall|k: int| 0 <= k < after.in_progess_rows@.len() implies #[trigger] after.row_ok(
            k,
        ) by {
            assert(before.row_ok(k));
        }
    }
    assert(after.blocks_ok()) by {
        assert forall|a: int| 0 <= a < after.n() implies #[trigger] ends_with(
            after.history@.arrived[a],
            after.blocks_of(a),
            after.sort_by(),
            after.width(),
        ) by {
            assert(before.blocks_of(a) == after.blocks_of(a));
        }
        assert forall|a: int, b: int|
            0 <= a < after.n() && 0 <= b < after.blocks_of(a).len() implies after.fits(
            #[trigger] after.blocks@[a]@[b],
        ) by {
            assert(before.fits(before.blocks@[a]@[b]));
        }
    }
    assert forall|j: int| #[trigger] rest.contains(j) implies after.is_pending(j) by {
        assert(pending.contains(j));
        assert(before.is_pending(j));
        assert(after.taken(j) == before.taken(j));
    }
    assert forall|j: int|
        0 <= j < after.n() && after.cursor_finished@[j] && !rest.contains(
            j,
        ) implies #[trigger] after.taken(j) == arrived[j].len() by {
        assert(j != i);
        assert(!pending.contains(j));
        assert(before.taken(j) == arrived[j].len());
    }
    if emitted.len() > 0 {
        assert forall|j: int|
            0 <= j < after.n() && #[trigger] after.cursor_finished@[j] && !rest.contains(
                j,
            ) implies after.input_finished@[j] || emitted.last().0 == j by {
            assert(j != i);
            assert(!pending.contains(j));
            assert(before.cursor_finished@[j]);
        }
    }
    if inputs_sorted(arrived, by) {
        assert(before.sorted_so_far());
        if emitted.len() > 0 {
            assert forall|p: int|
                #![trigger after.heap.cursors@[p]]
                0 <= p < after.heap.cursors@.len() implies after.not_before_last(
                after.heap.cursors@[p],
            ) by {
                let c = after.heap.cursors@[p];
                if p != at {
                    let q = if p < at { p } else { p - 1 };
                    assert(before.not_before_last(cursors[q]));
                } else {
                    lemma_new_head_follows(before, i);
                }
            }
        }
        assert(after.sorted_so_far());
    }
    assert(after.history_ok(rest));
}

/// The first row of a block that has come does not come before the last one that was merged, which
/// is the one before it of its input.
proof fn lemma_new_head_follows(p: MultiSortMergeProcessor, i: int)
    requires
        p.shape(),
        p.is_pending(i),
        p.blocks_of(i).last().rows() > 0,
        p.history@.emitted.len() > 0,
        crate::merge::history::is_numbered(p.history@.emitted, p.n()),
        inputs_sorted(p.history@.arrived, p.sort_by()),
    ensures
        entry_order(
            p.history@.arrived,
            p.history@.emitted.last(),
            (i, p.taken(i) as int),
            p.sort_by(),
        ) <= 0,
{
    let emitted = p.history@.emitted;
    let arrived = p.history@.arrived;
    let last = emitted[emitted.len() - 1];
    assert(emitted.take(emitted.len() - 1) =~= emitted.drop_last());
    assert(last.1 == count_of(emitted.drop_last(), i));
    assert(p.taken(i) == last.1 + 1);
    assert(crate::merge::order::key_order(
        (arrived[i][last.1]).key,
        (arrived[i][last.1 + 1]).key,
        p.sort_by(),
    ) <= 0);
}

/// The inputs of the blocks from the next one on are those of the blocks from this one on, but for
/// its own.
proof fn lemma_pending_next(
    before: MultiSortMergeProcessor,
    incoming: Seq<(usize, DataBlock)>,
    t: int,
)
    requires
        before.incoming_ok(incoming),
        0 <= t < incoming.len(),
    ensures
        pending_from(incoming, t).contains(incoming[t].0 as int),
        pending_from(incoming, t).remove(incoming[t].0 as int) == pending_from(incoming, t + 1),
{
    let i0 = incoming[t].0 as int;
    assert(comes_from(incoming, i0, t));
    assert forall|i: int|
        pending_from(incoming, t).remove(i0).contains(i) <==> #[trigger] pending_from(
            incoming,
            t + 1,
        ).contains(i) by {
        if pending_from(incoming, t).remove(i0).contains(i) {
            let s = choose|s: int| t <= s && comes_from(incoming, i, s);
            assert(t + 1 <= s && comes_from(incoming, i, s));
        }
        if pending_from(incoming, t + 1).contains(i) {
            let s = choose|s: int| t + 1 <= s && comes_from(incoming, i, s);
            assert(t <= s && comes_from(incoming, i, s));
            assert(incoming[t].0 != incoming[s].0);
        }
    }
    assert(pending_from(incoming, t).remove(i0) =~= pending_from(incoming, t + 1));
}

/// Every input that a block has come from, or that rows wait of, is active.
proof fn lemma_some_active(p: MultiSortMergeProcessor, i: int)
    requires
        p.shape(),
        p.heap_ok(),
        p.heap.cursors@.len() > 0 || (0 <= i < p.n() && !p.input_finished@[i]),
    ensures
        p.active() > 0,
{
    lemma_heap_within_active(p);
    if p.heap.cursors@.len() == 0 {
        lemma_count_unset_positive(done_flags(p.input_finished@, p.cursor_finished@), i);
    }
}

impl MultiSortMergeProcessor {
    /// Lets the first rows of the blocks that have come wait with the others.
    fn enter_blocks(&mut self, added: &Vec<usize>, incoming: Ghost<Seq<(usize, DataBlock)>>) -> (r:
        Result<(), ErrorCode>)
        requires
            old(self).sound_except(pending_from(incoming@, 0)),
            added@.len() == incoming@.len(),
            forall|s: int| 0 <= s < added@.len() ==> #[trigger] added@[s] == incoming@[s].0,
            forall|s: int, t: int|
                0 <= s < t < incoming@.len() ==> (#[trigger] incoming@[s]).0 != (
                #[trigger] incoming@[t]).0,
            forall|s: int|
                #![trigger incoming@[s]]
                0 <= s < incoming@.len() ==> {
                    &&& incoming@[s].0 < old(self).n()
                    &&& old(self).cursor_finished@[incoming@[s].0 as int]
                    &&& !old(self).input_finished@[incoming@[s].0 as int]
                    &&& old(self).fits(incoming@[s].1)
                    &&& old(self).blocks_of(incoming@[s].0 as int).len() > 0
                    &&& old(self).blocks_of(incoming@[s].0 as int).last() == incoming@[s].1
                },
        ensures
            *final(self) == (MultiSortMergeProcessor {
                cursor_finished: final(self).cursor_finished,
                heap: final(self).heap,
                ..*old(self)
            }),
            r is Ok <==> forall|s: int|
                0 <= s < incoming@.len() && (#[trigger] incoming@[s]).1.rows() > 0
                    ==> has_sort_columns(incoming@[s].1, old(self).sort_by()),
            r is Ok ==> {
                &&& final(self).sound()
                &&& final(self).heads() == heads_with(
                    old(self).heads(),
                    incoming@,
                    old(self).sort_by(),
                    incoming@.len() as int,
                )
                &&& final(self).cursor_finished@ == flags_with(
                    old(self).cursor_finished@,
                    incoming@,
                    incoming@.len() as int,
                )
            },
            r matches Err(e) ==> exists|s: int|
                {
                    &&& #[trigger] is_first_unsorted(incoming@, old(self).sort_by(), s)
                    &&& names_missing_column(
                        e,
                        incoming@[s].1,
                        incoming@[s].1,
                        old(self).sort_by(),
                    )
                    &&& final(self).heads() == heads_with(
                        old(self).heads(),
                        incoming@,
                        old(self).sort_by(),
                        s,
                    )
                    &&& final(self).cursor_finished@ == flags_with(
                        old(self).cursor_finished@,
                        incoming@,
                        s,
                    )
                },
    {
        let mut t: usize = 0;
        while t < added.len()
            invariant
                t <= added@.len(),
                added@.len() == incoming@.len(),
                forall|s: int| 0 <= s < added@.len() ==> #[trigger] added@[s] == incoming@[s].0,
                old(self).incoming_ok(incoming@),
                forall|s: int|
                    #![trigger incoming@[s]]
                    0 <= s < incoming@.len() ==> {
                        &&& old(self).blocks_of(incoming@[s].0 as int).len() > 0
                        &&& old(self).blocks_of(incoming@[s].0 as int).last() == incoming@[s].1
                    },
                *self == (MultiSortMergeProcessor {
                    cursor_finished: self.cursor_finished,
                    heap: self.heap,
                    ..*old(self)
                }),
                self.sound_except(pending_from(incoming@, t as int)),
                self.heads() == heads_with(
                    old(self).heads(),
                    incoming@,
                    old(self).sort_by(),
                    t as int,
                ),
                self.cursor_finished@ == flags_with(
                    old(self).cursor_finished@,
                    incoming@,
                    t as int,
                ),
                forall|s: int|
                    0 <= s < t && (#[trigger] incoming@[s]).1.rows() > 0 ==> has_sort_columns(
                        incoming@[s].1,
                        old(self).sort_by(),
                    ),
            decreases added@.len() - t,
        {
            let input_index: usize = added[t];
            let ghost pending = pending_from(incoming@, t as int);
            let ghost before = *self;
            proof {
                lemma_pending_next(*old(self), incoming@, t as int);
                assert(incoming@[t as int].0 == input_index);
                assert(before.is_pending(input_index as int));
            }
            let block = &self.blocks[input_index][self.blocks[input_index].len() - 1];
            assert(*block == incoming@[t as int].1);
            assert(self.fits(*block));
            if !block.is_empty() {
                let cursor = match Cursor::try_create(
                    input_index,
                    block,
                    self.sort_columns_descriptions.clone(),
                ) {
                    Ok(cursor) => cursor,
                    Err(e) => {
                        assert(!has_sort_columns(incoming@[t as int].1, old(self).sort_by()));
                        assert(is_first_unsorted(incoming@, old(self).sort_by(), t as int));
                        return Err(e);
                    },
                };
                let ghost entering = cursor;
                proof {
                    assert forall|p: int| 0 <= p < before.heap.cursors@.len() implies {
                        &&& (#[trigger] before.heap.cursors@[p]).input_index != cursor.input_index
                        &&& cursor.compared_by(before.heap.cursors@[p], before.compare_map)
                    } by {
                        let d = before.heap.cursors@[p];
                        assert(before.cursor_ok(d));
                        assert(before.comparable(input_index as int, d.input_index as int));
                    }
                }
                self.heap.push(cursor, &self.compare_map);
                self.cursor_finished.set(input_index, false);
                proof {
                    let at = choose|p: int|
                        0 <= p <= before.heap.cursors@.len() && self.heap.cursors@
                            == #[trigger] before.heap.cursors@.insert(p, entering);
                    lemma_enter(before, *self, pending, entering, at);
                    assert(entering@ == first_head(
                        input_index as int,
                        incoming@[t as int].1,
                        old(self).sort_by(),
                    ));
                }
            } else {
                proof {
                    lemma_no_rows(before, pending, input_index as int);
                }
            }
            t = t + 1;
        }
        proof {
            assert(pending_from(incoming@, t as int) =~= Set::empty());
        }
        Ok(())
    }
}

/// With comparators for the new blocks, the last blocks of every two inputs can be compared.
proof fn lemma_map_extended(
    before: MultiSortMergeProcessor,
    after: MultiSortMergeProcessor,
    incoming: Seq<(usize, DataBlock)>,
    added: Seq<usize>,
)
    requires
        before.sound(),
        before.incoming_ok(incoming),
        added.len() == incoming.len(),
        forall|s: int| 0 <= s < added.len() ==> #[trigger] added[s] == incoming[s].0,
        after.inputs == before.inputs,
        after.sort_columns_descriptions == before.sort_columns_descriptions,
        keeps(before.blocks@, incoming, after.blocks@),
        forall|i: int, s: int|
            0 <= i < before.n() && 0 <= s < added.len() && i != added[s] && after.blocks_of(
                i,
            ).len() > 0 ==> {
                &&& #[trigger] after.comparable(i, added[s] as int)
                &&& after.comparable(added[s] as int, i)
            },
        forall|a: int, b: int|
            0 <= a < before.n() && 0 <= b < before.n() && !added.contains(a as usize)
                && !added.contains(b as usize) ==> #[trigger] comparators_of(
                after.compare_map,
                a,
                b,
            ) == comparators_of(before.compare_map, a, b),
    ensures
        after.map_ok(),
{
    assert forall|a: int, b: int|
        0 <= a < after.n() && 0 <= b < after.n() && a != b && after.blocks_of(a).len() > 0
            && after.blocks_of(b).len() > 0 implies #[trigger] after.comparable(a, b) by {
        assert(before.inputs.len() == before.n());
        if added.contains(b as usize) {
            let s = choose|s: int| 0 <= s < added.len() && added[s] == b as usize;
            assert(after.comparable(a, added[s] as int));
        } else if added.contains(a as usize) {
            let s = choose|s: int| 0 <= s < added.len() && added[s] == a as usize;
            assert(after.comparable(b, added[s] as int));
        } else {
            assert(!has_incoming(incoming, a)) by {
                if has_incoming(incoming, a) {
                    let s = choose|s: int| comes_from(incoming, a, s);
                    assert(added[s] == a as usize);
                }
            }
            assert(!has_incoming(incoming, b)) by {
                if has_incoming(incoming, b) {
                    let s = choose|s: int| comes_from(incoming, b, s);
                    assert(added[s] == b as usize);
                }
            }
            assert(after.blocks_of(a) == with_incoming(before.blocks_of(a), incoming, a));
            assert(after.blocks_of(b) == with_incoming(before.blocks_of(b), incoming, b));
            assert(before.comparable(a, b));
            assert(comparators_of(after.compare_map, a, b) == comparators_of(
                before.compare_map,
                a,
                b,
            ));
        }
    }
}

/// Merging keeps every row accounted for, and stops at the limit.
proof fn lemma_merged_accounted(
    before: MultiSortMergeProcessor,
    incoming: Seq<(usize, DataBlock)>,
    middle: MultiSortMergeProcessor,
    after: MultiSortMergeProcessor,
)
    requires
        before.wf(),
        before.state is Preserve,
        before.width() > 0,
        entered(before, incoming, middle),
        middle.active() > 0,
        drained(middle, middle.heads(), after),
        after == (MultiSortMergeProcessor {
            cursor_finished: after.cursor_finished,
            in_progess_rows: after.in_progess_rows,
            heap: after.heap,
            state: after.state,
            history: after.history,
            ..middle
        }),
    ensures
        after.accounted(),
{
    let h = before.history@;
    let h1 = after.history@;
    assert(after.state is Consume || after.state is Output);
    assert forall|k: int| 0 <= k < h1.pushed.len() implies #[trigger] h1.pushed[k] == row_at(
        h1.arrived,
        h1.emitted[k],
    ).cells by {
        assert(h1.emitted[k] == h1.emitted.take(h.emitted.len() as int)[k]);
        assert(h1.emitted[k] == h.emitted[k]);
        assert(h.pushed[k] == row_at(h.arrived, h.emitted[k]).cells);
        assert(0 <= h.emitted[k].0 < before.n());
        assert(h.emitted[k].1 < h.arrived[h.emitted[k].0].len());
        lemma_rows_stay(before, incoming, h.emitted[k].0, h.emitted[k].1);
    }
    if let Some(limit) = before.limit {
        let m = after.in_progess_rows@.len() - before.in_progess_rows@.len();
        assert(before.in_progess_rows@.len() < limit);
        if after.in_progess_rows@.len() > limit {
            let k = (limit - before.in_progess_rows@.len()) as nat;
            assert(0 < k < m);
            assert(steps(middle.heads(), middle.sort_by(), k).len() > 0);
            assert((middle.in_progess_rows@.len() + k) as usize == limit);
        }
        if after.in_progess_rows@.len() == limit {
            assert(m > 0);
            assert(after.in_progess_rows.len() == limit);
        }
    }
}

/// The block holds the rows in progress, in the columns of the output.
pub open spec fn holds_progress(before: MultiSortMergeProcessor, block: DataBlock) -> bool {
    &&& block.wf()
    &&& block.schema == before.output_schema
    &&& block.columns@.len() == before.width()
    &&& before.width() > 0 ==> block.rows() == before.in_progess_rows@.len()
    &&& forall|c: int, k: int|
        0 <= c < before.width() && 0 <= k < before.in_progess_rows@.len()
            ==> #[trigger] block.cell(c, k) == before.progress_cell(c, k)
}

/// A block of the rows in progress holds the next rows of the history.
proof fn lemma_built_accounted(
    before: MultiSortMergeProcessor,
    after: MultiSortMergeProcessor,
    block: DataBlock,
)
    requires
        before.wf(),
        before.state is Output,
        before.width() > 0,
        holds_progress(before, block),
        after == (MultiSortMergeProcessor {
            blocks: after.blocks,
            in_progess_rows: after.in_progess_rows,
            state: ProcessorState::Generated(block),
            ..before
        }),
        after.in_progess_rows@.len() == 0,
    ensures
        after.accounted(),
{
    let h = before.history@;
    assert forall|k: int| 0 <= k < block.rows() implies #[trigger] row_cells(
        block,
        before.width(),
        k,
    ) == row_at(h.arrived, h.emitted[h.pushed.len() + k]).cells by {
        assert(before.row_ok(k));
        let (i, b, r) = before.in_progess_rows@[k];
        let blocks = before.blocks_of(i as int);
        assert(ends_with(h.arrived[i as int], blocks, before.sort_by(), before.width()));
        assert(block_row(blocks[b as int], before.sort_by(), before.width(), r as int)
            == h.arrived[i as int][h.arrived[i as int].len() - tail_rows(blocks, b as int) + r]);
        assert(before.entry_of(k) == h.emitted[h.pushed.len() + k]);
        assert forall|c: int| 0 <= c < before.width() implies #[trigger] block.cell(c, k)
            == blocks[b as int].cell(c, r as int) by {
            assert(before.progress_cell(c, k) == blocks[b as int].cell(c, r as int));
        }
        assert(row_cells(block, before.width(), k) =~= row_cells(
            blocks[b as int],
            before.width(),
            r as int,
        ));
    }
}

impl MultiSortMergeProcessor {
    /// Keeps the blocks that have come, and merges.
    fn preserve(&mut self, blocks: Vec<(usize, DataBlock)>, start: Ghost<MultiSortMergeProcessor>)
        -> (r: Result<(), ErrorCode>)
        requires
            start@.wf(),
            start@.state == ProcessorState::Preserve(blocks),
            *old(self) == (MultiSortMergeProcessor {
                state: ProcessorState::Consume,
                ..start@
            }),
        ensures
            keeps(start@.blocks@, blocks@, final(self).blocks@),
            r is Ok <==> can_be_sorted(*final(self), blocks@),
            r is Ok ==> final(self).wf() && exists|middle: MultiSortMergeProcessor|
                {
                    &&& #[trigger] entered(start@, blocks@, middle)
                    &&& drained(middle, middle.heads(), *final(self))
                    &&& *final(self) == (MultiSortMergeProcessor {
                        cursor_finished: final(self).cursor_finished,
                        in_progess_rows: final(self).in_progess_rows,
                        heap: final(self).heap,
                        state: final(self).state,
                        history: final(self).history,
                        ..middle
                    })
                },
            r matches Err(e) ==> comparing_failed(start@, blocks@, *final(self), e)
                || entering_failed(start@, blocks@, *final(self), e),
    {
        let ghost incoming = blocks@;
        let ghost begun = *self;
        proof {
            lemma_frame(start@, begun);
        }
        let added = self.keep_blocks(blocks);
        let ghost kept = *self;
        proof {
            assert(added@ =~= inputs_of(incoming));
            assert forall|s: int|
                #![trigger incoming[s]]
                0 <= s < incoming.len() implies {
                &&& self.blocks_of(incoming[s].0 as int).len() > 0
                &&& self.blocks_of(incoming[s].0 as int).last() == incoming[s].1
            } by {
                lemma_incoming_from(begun, incoming, s);
                assert(self.blocks_of(incoming[s].0 as int) == with_incoming(
                    begun.blocks_of(incoming[s].0 as int),
                    incoming,
                    incoming[s].0 as int,
                ));
            }
            assert forall|i: int, b: int|
                0 <= i < self.n() && 0 <= b < self.blocks_of(i).len() implies self.fits(
                #[trigger] self.blocks@[i]@[b],
            ) by {
                assert(self.blocks_of(i) == with_incoming(begun.blocks_of(i), incoming, i));
                if b < begun.blocks_of(i).len() {
                    assert(begun.fits(begun.blocks@[i]@[b]));
                } else {
                    let s = choose|s: int| comes_from(incoming, i, s);
                    assert(incoming[s].0 < begun.n());
                }
            }
        }
        match self.build_compare_map(&added) {
            Ok(()) => {},
            Err(e) => {
                proof {
                    lemma_columns_missing(kept, *self, incoming, added@);
                    let (i, s) = choose|i: int, s: int|
                        {
                            &&& #[trigger] kept.is_first_failing_pair(added@, i, s)
                            &&& names_missing_column(
                                e,
                                kept.blocks_of(i).last(),
                                kept.blocks_of(added@[s] as int).last(),
                                kept.sort_by(),
                            )
                            &&& self.map_built(kept.compare_map, added@, i, s)
                        };
                    lemma_same_pairs(kept, *self, added@, i, s);
                    assert(incoming[s].1 == kept.blocks_of(incoming[s].0 as int).last());
                }
                return Err(e);
            },
        }
        let ghost mapped = *self;
        proof {
            lemma_map_built(kept, mapped, added@);
            lemma_map_extended(begun, mapped, incoming, added@);
            self.history@ = History {
                arrived: arrived_with(start@, incoming),
                ..self.history@
            };
            lemma_same_map(mapped, *self);
            lemma_kept(begun, *self, incoming);
        }
        let ghost waiting = *self;
        match self.enter_blocks(&added, Ghost(incoming)) {
            Ok(()) => {},
            Err(e) => {
                proof {
                    assert(keeps(start@.blocks@, incoming, self.blocks@));
                    lemma_same_map(waiting, *self);
                    lemma_same_cells(
                        mapped,
                        *self,
                        start@.compare_map,
                        added@,
                        start@.n(),
                        0,
                    );
                    assert(entering_failed(start@, incoming, *self, e));
                }
                return Err(e);
            },
        }
        let ghost middle = *self;
        proof {
            lemma_same_cells(mapped, middle, start@.compare_map, added@, start@.n(), 0);
            assert(entered(start@, incoming, middle)) by {
                assert(keeps(start@.blocks@, incoming, middle.blocks@));
            }
            if incoming.len() > 0 {
                assert(incoming[0].0 < start@.n());
                lemma_some_active(middle, incoming[0].0 as int);
            } else {
                assert(middle.heads() == start@.heads());
                assert(middle.heap.cursors@.len() == middle.heads().len());
                lemma_some_active(middle, 0);
            }
        }
        self.drain_heap();
        proof {
            if self.width() > 0 {
                lemma_merged_accounted(start@, incoming, middle, *self);
            }
            lemma_columns_there(kept, mapped, *self, incoming, added@);
        }
        Ok(())
    }
}

/// Which blocks are compared and have the columns that rows are sorted by does not depend on the
/// comparators and cursors.
proof fn lemma_same_pairs(
    kept: MultiSortMergeProcessor,
    after: MultiSortMergeProcessor,
    added: Seq<usize>,
    i: int,
    s: int,
)
    requires
        after.blocks == kept.blocks,
        after.inputs == kept.inputs,
        after.sort_columns_descriptions == kept.sort_columns_descriptions,
    ensures
        kept.has_columns_before(added, i, s) ==> after.has_columns_before(added, i, s),
        kept.is_first_failing_pair(added, i, s) ==> after.is_first_failing_pair(added, i, s),
{
    if kept.has_columns_before(added, i, s) {
        assert forall|a: int, t: int| #[trigger]
            after.is_pair(added, a, t) && (a < i || (a == i && t < s)) implies
            after.has_columns_for(a, added[t] as int) by {
            assert(kept.is_pair(added, a, t));
        }
    }
}

/// Where a comparator could not be built, a column that rows are sorted by is not there.
proof fn lemma_columns_missing(
    kept: MultiSortMergeProcessor,
    after: MultiSortMergeProcessor,
    incoming: Seq<(usize, DataBlock)>,
    added: Seq<usize>,
)
    requires
        after == (MultiSortMergeProcessor { compare_map: after.compare_map, ..kept }),
        added.len() == incoming.len(),
        forall|s: int| 0 <= s < added.len() ==> #[trigger] added[s] == incoming[s].0,
        forall|s: int|
            #![trigger incoming[s]]
            0 <= s < incoming.len() ==> kept.blocks_of(incoming[s].0 as int).last()
                == incoming[s].1,
        !(forall|i: int, s: int|
            0 <= i < kept.n() && 0 <= s < added.len() && i != added[s] && kept.blocks_of(i).len()
                > 0 ==> #[trigger] kept.has_columns_for(i, added[s] as int)),
    ensures
        !can_be_sorted(after, incoming),
{
    let (i, s) = choose|i: int, s: int|
        0 <= i < kept.n() && 0 <= s < added.len() && i != added[s] && kept.blocks_of(i).len() > 0
            && !(#[trigger] kept.has_columns_for(i, added[s] as int));
    assert(is_compared(after, incoming, i, s));
    assert(incoming[s].1 == kept.blocks_of(incoming[s].0 as int).last());
}

/// Where comparators and cursors could be made, the columns that rows are sorted by are there.
proof fn lemma_columns_there(
    kept: MultiSortMergeProcessor,
    mapped: MultiSortMergeProcessor,
    after: MultiSortMergeProcessor,
    incoming: Seq<(usize, DataBlock)>,
    added: Seq<usize>,
)
    requires
        after.blocks == kept.blocks,
        after.inputs == kept.inputs,
        after.sort_columns_descriptions == kept.sort_columns_descriptions,
        added.len() == incoming.len(),
        forall|s: int| 0 <= s < added.len() ==> #[trigger] added[s] == incoming[s].0,
        forall|s: int|
            #![trigger incoming[s]]
            0 <= s < incoming.len() ==> kept.blocks_of(incoming[s].0 as int).last()
                == incoming[s].1,
        forall|i: int, s: int|
            0 <= i < kept.n() && 0 <= s < added.len() && i != added[s] && kept.blocks_of(i).len()
                > 0 ==> #[trigger] kept.has_columns_for(i, added[s] as int),
        forall|s: int|
            0 <= s < incoming.len() && (#[trigger] incoming[s]).1.rows() > 0 ==> has_sort_columns(
                incoming[s].1,
                kept.sort_by(),
            ),
    ensures
        can_be_sorted(after, incoming),
{
    assert forall|i: int, s: int|
        0 <= s < incoming.len() && #[trigger] is_compared(after, incoming, i, s) implies {
        &&& has_sort_columns(after.blocks_of(i).last(), after.sort_by())
        &&& has_sort_columns(incoming[s].1, after.sort_by())
    } by {
        assert(added[s] == incoming[s].0);
        assert(kept.has_columns_for(i, added[s] as int));
    }
}

/// Which blocks can be compared does not depend on the history and the cursors.
proof fn lemma_same_map(before: MultiSortMergeProcessor, after: MultiSortMergeProcessor)
    requires
        before.map_ok(),
        after == (MultiSortMergeProcessor {
            history: after.history,
            cursor_finished: after.cursor_finished,
            heap: after.heap,
            ..before
        }),
    ensures
        after.map_ok(),
{
    assert forall|i: int, j: int|
        0 <= i < after.n() && 0 <= j < after.n() && i != j && after.blocks_of(i).len() > 0
            && after.blocks_of(j).len() > 0 implies #[trigger] after.comparable(i, j) by {
        assert(before.comparable(i, j));
    }
}

impl MultiSortMergeProcessor {
    /// Does what `event` asked to be done.
    pub fn process(&mut self) -> (r: Result<(), ErrorCode>)
        requires
            old(self).wf(),
            old(self).state is Output ==> total_blocks(old(self).blocks@, old(self).n())
                <= usize::MAX,
        ensures
            r is Ok ==> final(self).wf(),
            match old(self).state {
                ProcessorState::Preserve(blocks) => {
                    &&& keeps(old(self).blocks@, blocks@, final(self).blocks@)
                    &&& r is Ok <==> can_be_sorted(*final(self), blocks@)
                    &&& r is Ok ==> exists|middle: MultiSortMergeProcessor|
                        {
                            &&& #[trigger] entered(*old(self), blocks@, middle)
                            &&& drained(middle, middle.heads(), *final(self))
                            &&& *final(self) == (MultiSortMergeProcessor {
                                cursor_finished: final(self).cursor_finished,
                                in_progess_rows: final(self).in_progess_rows,
                                heap: final(self).heap,
                                state: final(self).state,
                                history: final(self).history,
                                ..middle
                            })
                        }
                    &&& r matches Err(e) ==> comparing_failed(
                        *old(self),
                        blocks@,
                        *final(self),
                        e,
                    ) || entering_failed(*old(self), blocks@, *final(self), e)
                },
                ProcessorState::Output => {
                    &&& r is Ok
                    &&& final(self).state matches ProcessorState::Generated(block)
                        && holds_progress(*old(self), block)
                    &&& *final(self) == (MultiSortMergeProcessor {
                        blocks: final(self).blocks,
                        in_progess_rows: final(self).in_progess_rows,
                        state: final(self).state,
                        ..*old(self)
                    })
                    &&& final(self).in_progess_rows@.len() == 0
                    &&& forall|i: int|
                        0 <= i < old(self).n() ==> #[trigger] final(self).blocks_of(i)
                            == last_only(old(self).blocks_of(i))
                },
                _ => {
                    &&& r matches Err(e) && e.says(ErrorKind::LogicalError, "It's a bug."@)
                    &&& *final(self) == (MultiSortMergeProcessor {
                        state: ProcessorState::Consume,
                        ..*old(self)
                    })
                },
            },
    {
        let ghost start = *self;
        let mut state = ProcessorState::Consume;
        std::mem::swap(&mut state, &mut self.state);
        match state {
            ProcessorState::Preserve(blocks) => self.preserve(blocks, Ghost(start)),
            ProcessorState::Output => {
                proof {
                    lemma_frame(start, *self);
                }
                let block = self.build_block();
                let ghost built = *self;
                proof {
                    assert(holds_progress(start, block)) by {
                        assert forall|c: int, k: int|
                            0 <= c < start.width() && 0 <= k < start.in_progess_rows@.len() implies
                            #[trigger] block.cell(c, k) == start.progress_cell(c, k) by {}
                    }
                }
                self.state = ProcessorState::Generated(block);
                proof {
                    lemma_frame(built, *self);
                    assert forall|i: int| 0 <= i < start.n() implies #[trigger] self.blocks_of(i)
                        == last_only(start.blocks_of(i)) by {
                        assert(built.blocks_of(i) == last_only(start.blocks_of(i)));
                    }
                    if self.width() > 0 {
                        lemma_built_accounted(start, *self, block);
                    }
                }
                Ok(())
            },
            _ => Err(ErrorCode::create(ErrorKind::LogicalError, "It's a bug.")),
        }
    }
}

} // verus!
