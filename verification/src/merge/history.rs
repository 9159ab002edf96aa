//! What has come in and what has gone out since a merge began.

use vstd::prelude::*;

use crate::expression::block::DataBlock;
use crate::merge::order::{key_order, row_key, row_order, Key, SortColumnDescription};

verus! {

/// A row: its key, and its cells in the columns of the output.
#[verifier::ext_equal]
pub struct Row {
    pub key: Key,
    pub cells: Seq<Option<Seq<int>>>,
}

/// What has come in and what has gone out since a merge began.
#[verifier::ext_equal]
pub struct History {
    /// For each input, the rows that have come from it.
    pub arrived: Seq<Seq<Row>>,
    /// The rows in the order in which they were merged, each by its input and its place there.
    pub emitted: Seq<(int, int)>,
    /// The rows that were sent to the output.
    pub pushed: Seq<Seq<Option<Seq<int>>>>,
    /// The blocks that were sent to the output.
    pub sent: Seq<DataBlock>,
    /// How many rows may be sent, if there is a limit.
    pub allowed: Option<nat>,
}

/// The cells of a row of the block in its first `width` columns.
pub open spec fn row_cells(block: DataBlock, width: nat, row: int) -> Seq<Option<Seq<int>>> {
    Seq::new(width, |c: int| block.cell(c, row))
}

/// The rows of a block, in its first `width` columns.
pub open spec fn sent_rows(block: DataBlock, width: nat) -> Seq<Seq<Option<Seq<int>>>> {
    Seq::new(block.rows(), |k: int| row_cells(block, width, k))
}

/// The rows of some blocks, one block after the other.
pub open spec fn joined(blocks: Seq<DataBlock>, width: nat) -> Seq<Seq<Option<Seq<int>>>>
    decreases blocks.len(),
{
    if blocks.len() == 0 {
        Seq::empty()
    } else {
        joined(blocks.drop_last(), width) + sent_rows(blocks.last(), width)
    }
}

/// A row of the block.
pub open spec fn block_row(
    block: DataBlock,
    by: Seq<SortColumnDescription>,
    width: nat,
    row: int,
) -> Row {
    Row { key: row_key(block, by, row), cells: row_cells(block, width, row) }
}

/// The rows of the block.
pub open spec fn block_rows(
    block: DataBlock,
    by: Seq<SortColumnDescription>,
    width: nat,
) -> Seq<Row> {
    Seq::new(block.rows(), |r: int| block_row(block, by, width, r))
}

/// How many rows the blocks from the `b`-th on have.
pub open spec fn tail_rows(blocks: Seq<DataBlock>, b: int) -> nat
    decreases blocks.len() - b,
{
    if b < 0 || b >= blocks.len() {
        0
    } else {
        blocks[b].rows() + tail_rows(blocks, b + 1)
    }
}

/// The blocks hold the last of the rows.
pub open spec fn ends_with(
    rows: Seq<Row>,
    blocks: Seq<DataBlock>,
    by: Seq<SortColumnDescription>,
    width: nat,
) -> bool {
    &&& tail_rows(blocks, 0) <= rows.len()
    &&& forall|b: int, r: int|
        0 <= b < blocks.len() && 0 <= r < blocks[b].rows() ==> #[trigger] block_row(
            blocks[b],
            by,
            width,
            r,
        ) == rows[rows.len() - tail_rows(blocks, b) + r]
}

/// A later block has fewer rows behind it.
pub proof fn lemma_tail_rows_bounds(blocks: Seq<DataBlock>, a: int, b: int)
    requires
        0 <= a <= b <= blocks.len(),
    ensures
        tail_rows(blocks, b) <= tail_rows(blocks, a),
    decreases b - a,
{
    if a < b {
        lemma_tail_rows_bounds(blocks, a + 1, b);
    }
}

/// One block more adds its rows behind every other.
pub proof fn lemma_tail_rows_push(blocks: Seq<DataBlock>, block: DataBlock, b: int)
    requires
        0 <= b <= blocks.len(),
    ensures
        tail_rows(blocks.push(block), b) == tail_rows(blocks, b) + block.rows(),
    decreases blocks.len() - b,
{
    if b < blocks.len() {
        lemma_tail_rows_push(blocks, block, b + 1);
        assert(blocks.push(block)[b] == blocks[b]);
    } else {
        assert(tail_rows(blocks.push(block), b + 1) == 0);
    }
}

/// Blocks in front do not count for what is behind.
pub proof fn lemma_tail_rows_skip(blocks: Seq<DataBlock>, n: int, b: int)
    requires
        0 <= n <= blocks.len(),
        0 <= b <= blocks.len() - n,
    ensures
        tail_rows(blocks.skip(n), b) == tail_rows(blocks, n + b),
    decreases blocks.len() - b,
{
    if b < blocks.len() - n {
        lemma_tail_rows_skip(blocks, n, b + 1);
    }
}

/// A block that comes in brings its rows.
pub proof fn lemma_ends_with_push(
    rows: Seq<Row>,
    blocks: Seq<DataBlock>,
    block: DataBlock,
    by: Seq<SortColumnDescription>,
    width: nat,
)
    requires
        ends_with(rows, blocks, by, width),
    ensures
        ends_with(rows + block_rows(block, by, width), blocks.push(block), by, width),
{
    let more = rows + block_rows(block, by, width);
    let all = blocks.push(block);
    lemma_tail_rows_push(blocks, block, 0);
    assert forall|b: int, r: int|
        0 <= b < all.len() && 0 <= r < all[b].rows() implies #[trigger] block_row(
        all[b],
        by,
        width,
        r,
    ) == more[more.len() - tail_rows(all, b) + r] by {
        lemma_tail_rows_push(blocks, block, b);
        if b < blocks.len() {
            lemma_tail_rows_bounds(blocks, 0, b);
            lemma_tail_rows_bounds(blocks, b + 1, blocks.len() as int);
            assert(all[b] == blocks[b]);
            assert(block_row(blocks[b], by, width, r) == rows[rows.len() - tail_rows(blocks, b)
                + r]);
        } else {
            assert(tail_rows(blocks, b) == 0);
            assert(more[rows.len() + r] == block_rows(block, by, width)[r]);
        }
    }
}

/// Blocks in front may go.
pub proof fn lemma_ends_with_skip(
    rows: Seq<Row>,
    blocks: Seq<DataBlock>,
    n: int,
    by: Seq<SortColumnDescription>,
    width: nat,
)
    requires
        ends_with(rows, blocks, by, width),
        0 <= n <= blocks.len(),
    ensures
        ends_with(rows, blocks.skip(n), by, width),
{
    lemma_tail_rows_skip(blocks, n, 0);
    lemma_tail_rows_bounds(blocks, 0, n);
    let rest = blocks.skip(n);
    assert forall|b: int, r: int|
        0 <= b < rest.len() && 0 <= r < rest[b].rows() implies #[trigger] block_row(
        rest[b],
        by,
        width,
        r,
    ) == rows[rows.len() - tail_rows(rest, b) + r] by {
        lemma_tail_rows_skip(blocks, n, b);
        assert(rest[b] == blocks[n + b]);
        assert(block_row(blocks[n + b], by, width, r) == rows[rows.len() - tail_rows(
            blocks,
            n + b,
        ) + r]);
    }
}

/// How many of the merged rows come from input `i`.
pub open spec fn count_of(emitted: Seq<(int, int)>, i: int) -> nat
    decreases emitted.len(),
{
    if emitted.len() == 0 {
        0
    } else {
        count_of(emitted.drop_last(), i) + if emitted.last().0 == i {
            1nat
        } else {
            0nat
        }
    }
}

/// Every merged row is the next one of its input.
pub open spec fn is_numbered(emitted: Seq<(int, int)>, n: int) -> bool {
    forall|k: int|
        #![trigger emitted[k]]
        0 <= k < emitted.len() ==> 0 <= emitted[k].0 < n && emitted[k].1 == count_of(
            emitted.take(k),
            emitted[k].0,
        )
}

/// A merged row more counts for its input.
pub proof fn lemma_count_push(emitted: Seq<(int, int)>, e: (int, int), i: int)
    ensures
        count_of(emitted.push(e), i) == count_of(emitted, i) + if e.0 == i {
            1nat
        } else {
            0nat
        },
{
    assert(emitted.push(e).drop_last() =~= emitted);
}

/// The more rows were merged, the more of them come from an input.
pub proof fn lemma_count_take(emitted: Seq<(int, int)>, k: int, i: int)
    requires
        0 <= k <= emitted.len(),
    ensures
        count_of(emitted.take(k), i) <= count_of(emitted, i),
        k < emitted.len() && emitted[k].0 == i ==> count_of(emitted.take(k), i) < count_of(
            emitted,
            i,
        ),
    decreases emitted.len(),
{
    if k == emitted.len() {
        assert(emitted.take(k) =~= emitted);
    } else {
        lemma_count_take(emitted.drop_last(), k, i);
        assert(emitted.drop_last().take(k) =~= emitted.take(k));
        if k < emitted.len() - 1 {
            assert(emitted.drop_last()[k] == emitted[k]);
        }
    }
}

/// The next row of an input may be merged next.
pub proof fn lemma_numbered_push(emitted: Seq<(int, int)>, n: int, i: int)
    requires
        is_numbered(emitted, n),
        0 <= i < n,
    ensures
        is_numbered(emitted.push((i, count_of(emitted, i) as int)), n),
{
    let more = emitted.push((i, count_of(emitted, i) as int));
    assert forall|k: int|
        #![trigger more[k]]
        0 <= k < more.len() implies 0 <= more[k].0 < n && more[k].1 == count_of(
        more.take(k),
        more[k].0,
    ) by {
        assert(more.take(k) =~= emitted.take(k));
        if k < emitted.len() {
            assert(more[k] == emitted[k]);
        } else {
            assert(emitted.take(k) =~= emitted);
        }
    }
}

/// Two rows of one input that are merged one after the other are neighbours there.
pub proof fn lemma_numbered_neighbours(emitted: Seq<(int, int)>, n: int, k: int)
    requires
        is_numbered(emitted, n),
        0 <= k < emitted.len() - 1,
        emitted[k].0 == emitted[k + 1].0,
    ensures
        emitted[k + 1].1 == emitted[k].1 + 1,
{
    assert(emitted.take(k + 1) =~= emitted.take(k).push(emitted[k]));
    lemma_count_push(emitted.take(k), emitted[k], emitted[k].0);
}

/// The rows of each input come in order.
pub open spec fn inputs_sorted(
    arrived: Seq<Seq<Row>>,
    by: Seq<SortColumnDescription>,
) -> bool {
    forall|i: int, a: int, b: int|
        0 <= i < arrived.len() && 0 <= a <= b < arrived[i].len() ==> key_order(
            (#[trigger] arrived[i][a]).key,
            (#[trigger] arrived[i][b]).key,
            by,
        ) <= 0
}

/// The row that a merged row stands for.
pub open spec fn row_at(arrived: Seq<Seq<Row>>, e: (int, int)) -> Row {
    arrived[e.0][e.1]
}

/// The order of two merged rows.
pub open spec fn entry_order(
    arrived: Seq<Seq<Row>>,
    a: (int, int),
    b: (int, int),
    by: Seq<SortColumnDescription>,
) -> int {
    row_order(row_at(arrived, a).key, a.0, row_at(arrived, b).key, b.0, by)
}

/// The rows were merged in order.
pub open spec fn is_merged(
    arrived: Seq<Seq<Row>>,
    emitted: Seq<(int, int)>,
    by: Seq<SortColumnDescription>,
) -> bool {
    forall|a: int, b: int|
        0 <= a < b < emitted.len() ==> entry_order(
            arrived,
            #[trigger] emitted[a],
            #[trigger] emitted[b],
            by,
        ) <= 0
}

/// How many of the flags are not set.
pub open spec fn count_unset(flags: Seq<bool>) -> nat
    decreases flags.len(),
{
    if flags.len() == 0 {
        0
    } else {
        count_unset(flags.drop_last()) + if flags.last() {
            0nat
        } else {
            1nat
        }
    }
}

/// Setting a flag that was not set leaves one less that is not.
pub proof fn lemma_count_unset_update(flags: Seq<bool>, i: int, value: bool)
    requires
        0 <= i < flags.len(),
    ensures
        flags[i] && !value ==> count_unset(flags.update(i, value)) == count_unset(flags) + 1,
        !flags[i] && value ==> count_unset(flags.update(i, value)) == count_unset(flags) - 1,
        flags[i] == value ==> count_unset(flags.update(i, value)) == count_unset(flags),
    decreases flags.len(),
{
    if i == flags.len() - 1 {
        assert(flags.update(i, value).drop_last() =~= flags.drop_last());
    } else {
        lemma_count_unset_update(flags.drop_last(), i, value);
        assert(flags.update(i, value).drop_last() =~= flags.drop_last().update(i, value));
    }
}

/// Where a flag of `b` is not set only if that of `a` is not, as many unset flags in both means
/// that they are the same.
pub proof fn lemma_count_unset_subset(a: Seq<bool>, b: Seq<bool>)
    requires
        a.len() == b.len(),
        forall|i: int| 0 <= i < a.len() && #[trigger] b[i] ==> a[i],
    ensures
        count_unset(a) <= count_unset(b),
        count_unset(a) >= count_unset(b) ==> a == b,
    decreases a.len(),
{
    if a.len() > 0 {
        assert forall|i: int| 0 <= i < a.len() - 1 && #[trigger] b.drop_last()[i] implies
            a.drop_last()[i] by {
            assert(b[i]);
        }
        lemma_count_unset_subset(a.drop_last(), b.drop_last());
        assert(b.last() == b[b.len() - 1]);
        if count_unset(a) >= count_unset(b) {
            assert(a =~= a.drop_last().push(a.last()));
            assert(b =~= b.drop_last().push(b.last()));
        }
    } else {
        assert(a =~= b);
    }
}

/// A flag that is not set counts.
pub proof fn lemma_count_unset_positive(flags: Seq<bool>, i: int)
    requires
        0 <= i < flags.len(),
        !flags[i],
    ensures
        count_unset(flags) > 0,
{
    lemma_count_unset_update(flags, i, true);
}

/// Where none is unset, all are set.
pub proof fn lemma_count_unset_zero(flags: Seq<bool>)
    requires
        count_unset(flags) == 0,
    ensures
        forall|i: int| 0 <= i < flags.len() ==> #[trigger] flags[i],
{
    assert forall|i: int| 0 <= i < flags.len() implies #[trigger] flags[i] by {
        if !flags[i] {
            lemma_count_unset_positive(flags, i);
        }
    }
}

} // verus!
