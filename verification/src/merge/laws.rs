//! What a merge promises as a whole.

use vstd::prelude::*;

use crate::expression::block::DataBlock;
use crate::merge::drain::lemma_next_row;
use crate::merge::event::consumed;
use crate::merge::heads::{has_distinct_inputs, head_order, leaving, Head};
use crate::merge::history::{
    count_of, count_unset, entry_order, inputs_sorted, is_numbered, joined, lemma_count_take,
    lemma_count_unset_positive, lemma_count_unset_update, lemma_count_unset_zero, row_at,
};
use crate::merge::order::{
    key_order, lemma_row_order_antisymmetric, lemma_row_order_transitive, row_order,
};
use crate::merge::processor::{done_flags, Event, MultiSortMergeProcessor, ProcessorState};

verus! {

/// Where the rows of every input come in order, rows leave in order: of two rows that leave, the
/// first has the lesser key, or the same key and an input that is not behind that of the second.
pub proof fn law_rows_leave_in_order(p: MultiSortMergeProcessor, a: int, b: int)
    requires
        p.wf(),
        inputs_sorted(p.history@.arrived, p.sort_by()),
        0 <= a < b < p.history@.emitted.len(),
    ensures
        key_order(
            row_at(p.history@.arrived, p.history@.emitted[a]).key,
            row_at(p.history@.arrived, p.history@.emitted[b]).key,
            p.sort_by(),
        ) <= 0,
        key_order(
            row_at(p.history@.arrived, p.history@.emitted[a]).key,
            row_at(p.history@.arrived, p.history@.emitted[b]).key,
            p.sort_by(),
        ) == 0 ==> p.history@.emitted[a].0 <= p.history@.emitted[b].0,
{
    assert(p.sorted_so_far());
    assert(entry_order(
        p.history@.arrived,
        p.history@.emitted[a],
        p.history@.emitted[b],
        p.sort_by(),
    ) <= 0);
}

/// The rows of the blocks that were sent, one block after the other, are the merged rows, in the
/// order in which they were merged, with the cells that they came with.
pub proof fn law_sent_rows_are_merged_rows(p: MultiSortMergeProcessor, k: int)
    requires
        p.wf(),
        p.width() > 0,
        0 <= k < joined(p.history@.sent, p.width()).len(),
    ensures
        p.history@.pushed == joined(p.history@.sent, p.width()),
        joined(p.history@.sent, p.width()).len() <= p.history@.emitted.len(),
        joined(p.history@.sent, p.width())[k] == row_at(
            p.history@.arrived,
            p.history@.emitted[k],
        ).cells,
{
}

/// Every block that was sent, and one that is sent next, has the schema of the output and, where
/// that has columns, at least one row.
pub proof fn law_sent_blocks_have_rows(p: MultiSortMergeProcessor, block: DataBlock)
    requires
        p.wf(),
        p.history@.sent.contains(block) || p.state == ProcessorState::Generated(block),
    ensures
        block.wf(),
        block.schema == p.output_schema,
        block.columns@.len() == p.width(),
        p.width() > 0 ==> block.rows() > 0,
{
    if p.history@.sent.contains(block) {
        let k = choose|k: int| 0 <= k < p.history@.sent.len() && p.history@.sent[k] == block;
        assert(p.can_be_sent(p.history@.sent[k]));
    }
}

/// Every merged row has come from an input, no row is merged twice, and the rows of one input are
/// merged in the order in which they came.
pub proof fn law_each_row_at_most_once(p: MultiSortMergeProcessor, a: int, b: int)
    requires
        p.wf(),
        0 <= a < b < p.history@.emitted.len(),
    ensures
        0 <= p.history@.emitted[a].0 < p.n(),
        0 <= p.history@.emitted[a].1 < p.history@.arrived[p.history@.emitted[a].0].len(),
        p.history@.emitted[a] != p.history@.emitted[b],
        p.history@.emitted[a].0 == p.history@.emitted[b].0 ==> p.history@.emitted[a].1
            < p.history@.emitted[b].1,
{
    let emitted = p.history@.emitted;
    assert(emitted[a].1 == count_of(emitted.take(a), emitted[a].0));
    assert(emitted[b].1 == count_of(emitted.take(b), emitted[b].0));
    if emitted[a].0 == emitted[b].0 {
        lemma_count_take(emitted.take(b), a, emitted[a].0);
        assert(emitted.take(b).take(a) =~= emitted.take(a));
        assert(emitted.take(b)[a] == emitted[a]);
    }
}

/// As many rows of an input as were merged, so many of its first ones were.
proof fn lemma_first_rows_merged(emitted: Seq<(int, int)>, n: int, i: int, k: int)
    requires
        is_numbered(emitted, n),
        0 <= k < count_of(emitted, i),
    ensures
        emitted.contains((i, k)),
    decreases emitted.len(),
{
    let front = emitted.drop_last();
    let last = emitted[emitted.len() - 1];
    assert(emitted.take(emitted.len() - 1) =~= front);
    if last.0 == i && k == count_of(front, i) {
        assert(emitted[emitted.len() - 1] == (i, k));
    } else {
        assert forall|j: int|
            #![trigger front[j]]
            0 <= j < front.len() implies 0 <= front[j].0 < n && front[j].1 == count_of(
            front.take(j),
            front[j].0,
        ) by {
            assert(emitted[j] == front[j]);
            assert(front.take(j) =~= emitted.take(j));
        }
        lemma_first_rows_merged(front, n, i, k);
        let j = choose|j: int| 0 <= j < front.len() && front[j] == (i, k);
        assert(emitted[j] == (i, k));
    }
}

/// Once no input is active and no row is in progress, every row that came has been merged, and
/// where the output has columns it has been sent or is in the block that is sent next.
pub proof fn law_all_rows_leave(p: MultiSortMergeProcessor, i: int, k: int)
    requires
        p.wf(),
        p.active() == 0,
        p.in_progess_rows@.len() == 0,
        0 <= i < p.n(),
        0 <= k < p.history@.arrived[i].len(),
    ensures
        p.history@.emitted.contains((i, k)),
        p.width() > 0 ==> p.history@.pushed.len() + p.built_rows() == p.history@.emitted.len(),
{
    let done = done_flags(p.input_finished@, p.cursor_finished@);
    lemma_count_unset_zero(done);
    assert(done[i]);
    assert(p.taken(i) == p.history@.arrived[i].len());
    lemma_first_rows_merged(p.history@.emitted, p.n(), i, k);
}

/// Where a merge finishes because its inputs have ended, every row that came was sent, if the output
/// has columns, and no row is left that waits.
pub proof fn law_finished_merge_has_sent_all_rows(
    before: MultiSortMergeProcessor,
    after: MultiSortMergeProcessor,
    i: int,
    k: int,
)
    requires
        before.wf(),
        after.wf(),
        after == (MultiSortMergeProcessor {
            inputs: after.inputs,
            input_finished: after.input_finished,
            state: after.state,
            output: after.output,
            ..before
        }),
        consumed(before, after, Event::Finished),
        0 <= i < after.n(),
        0 <= k < after.history@.arrived[i].len(),
    ensures
        after.history@.emitted.contains((i, k)),
        after.width() > 0 ==> after.history@.pushed.len() == after.history@.emitted.len(),
        after.heads().len() == 0,
{
    law_all_rows_leave(after, i, k);
}

/// No more rows are sent, built or in progress than the limit allows, and what may still be sent
/// is what the limit allows less what was sent.
pub proof fn law_limit_is_kept(p: MultiSortMergeProcessor, allowed: nat)
    requires
        p.wf(),
        p.width() > 0,
        p.history@.allowed == Some(allowed),
    ensures
        p.history@.emitted.len() <= allowed,
        p.history@.pushed.len() <= allowed,
        p.limit matches Some(limit) && limit == allowed - p.history@.pushed.len(),
{
}

/// What has come to the first merge has come to the second, from the same inputs in the same order,
/// and of an input that has ended for the first no more has come to the second. Both sort alike and
/// have the same columns.
pub open spec fn is_fed_by(p: MultiSortMergeProcessor, q: MultiSortMergeProcessor) -> bool {
    &&& p.n() == q.n()
    &&& p.sort_by() == q.sort_by()
    &&& p.width() == q.width()
    &&& forall|i: int|
        #![trigger p.history@.arrived[i]]
        0 <= i < p.n() ==> {
            &&& p.history@.arrived[i].is_prefix_of(q.history@.arrived[i])
            &&& p.input_finished@[i] ==> p.history@.arrived[i] == q.history@.arrived[i]
        }
}

/// Every row that has come was merged.
pub open spec fn has_merged_all(q: MultiSortMergeProcessor) -> bool {
    forall|i: int, k: int|
        0 <= i < q.n() && 0 <= k < q.history@.arrived[i].len() ==> #[trigger] q.history@.emitted.contains(
            (i, k),
        )
}

/// A merge has ended: it has sent what the limit allows, or its inputs have ended and no row is on
/// its way.
pub open spec fn has_ended(p: MultiSortMergeProcessor) -> bool {
    p.limit == Some(0usize) || (p.active() == 0 && p.in_progess_rows@.len() == 0
        && p.built_rows() == 0)
}

/// Where inputs that have a row that waits are as many as cursors, each such input has one.
proof fn lemma_cursor_waits(p: MultiSortMergeProcessor, j: int)
    requires
        p.wf(),
        0 <= j < p.n(),
        !p.cursor_finished@[j],
    ensures
        exists|c: int|
            0 <= c < p.heap.cursors@.len() && (#[trigger] p.heap.cursors@[c]).input_index == j,
{
    let heads = p.heads();
    if forall|c: int|
        0 <= c < p.heap.cursors@.len() ==> (#[trigger] p.heap.cursors@[c]).input_index != j {
        assert forall|c: int| 0 <= c < heads.len() implies {
            &&& 0 <= (#[trigger] heads[c]).input < p.n()
            &&& !p.cursor_finished@[heads[c].input]
            &&& heads[c].input != j
        } by {
            assert(heads[c] == p.heap.cursors@[c]@);
            assert(p.cursor_ok(p.heap.cursors@[c]));
        }
        lemma_distinct_unset(p.cursor_finished@, heads, j);
    }
}

/// Inputs that have a row that waits, all of them different, are fewer than all where there is
/// another.
proof fn lemma_distinct_unset(flags: Seq<bool>, heads: Seq<Head>, j: int)
    requires
        has_distinct_inputs(heads),
        0 <= j < flags.len(),
        !flags[j],
        forall|c: int|
            0 <= c < heads.len() ==> {
                &&& 0 <= (#[trigger] heads[c]).input < flags.len()
                &&& !flags[heads[c].input]
                &&& heads[c].input != j
            },
    ensures
        heads.len() < count_unset(flags),
    decreases heads.len(),
{
    if heads.len() == 0 {
        lemma_count_unset_positive(flags, j);
    } else {
        let last = heads[heads.len() - 1];
        let front = heads.drop_last();
        let fewer = flags.update(last.input, true);
        lemma_count_unset_update(flags, last.input, true);
        assert forall|c: int| 0 <= c < front.len() implies {
            &&& 0 <= (#[trigger] front[c]).input < fewer.len()
            &&& !fewer[front[c].input]
            &&& front[c].input != j
        } by {
            assert(front[c] == heads[c]);
            assert(heads[c].input != last.input);
        }
        lemma_distinct_unset(fewer, front, j);
    }
}

/// Fewer rows of an input are merged among the first `k` than among all.
proof fn lemma_merged_later(emitted: Seq<(int, int)>, n: int, m: int, k: int)
    requires
        is_numbered(emitted, n),
        0 <= m < k <= emitted.len(),
    ensures
        emitted[m].1 < count_of(emitted.take(k), emitted[m].0),
{
    lemma_count_take(emitted.take(k), m, emitted[m].0);
    assert(emitted.take(k).take(m) =~= emitted.take(m));
    assert(emitted.take(k)[m] == emitted[m]);
}

/// The next row of an input that has one waiting does not come before the last that was merged.
proof fn lemma_last_is_not_after(p: MultiSortMergeProcessor, j: int)
    requires
        p.wf(),
        p.sorted_so_far(),
        p.history@.emitted.len() > 0,
        0 <= j < p.n(),
        !p.cursor_finished@[j],
    ensures
        p.taken(j) < p.history@.arrived[j].len(),
        entry_order(
            p.history@.arrived,
            p.history@.emitted.last(),
            (j, p.taken(j) as int),
            p.sort_by(),
        ) <= 0,
{
    lemma_cursor_waits(p, j);
    let c = choose|c: int|
        0 <= c < p.heap.cursors@.len() && (#[trigger] p.heap.cursors@[c]).input_index == j;
    let cursor = p.heap.cursors@[c];
    assert(p.not_before_last(cursor));
    assert(p.cursor_ok(cursor));
    assert(p.all_but_rest_taken(cursor));
    assert(cursor.row_index < cursor.num_rows);
}

/// Rows that have come to both merges are ordered alike.
proof fn lemma_same_order(
    p: MultiSortMergeProcessor,
    q: MultiSortMergeProcessor,
    a: (int, int),
    b: (int, int),
)
    requires
        is_fed_by(p, q),
        0 <= a.0 < p.n(),
        0 <= a.1 < p.history@.arrived[a.0].len(),
        0 <= b.0 < p.n(),
        0 <= b.1 < p.history@.arrived[b.0].len(),
    ensures
        entry_order(p.history@.arrived, a, b, p.sort_by()) == entry_order(
            q.history@.arrived,
            a,
            b,
            q.sort_by(),
        ),
{
    assert(p.history@.arrived[a.0].is_prefix_of(q.history@.arrived[a.0]));
    assert(p.history@.arrived[b.0].is_prefix_of(q.history@.arrived[b.0]));
}

/// Where no row of an input is merged from the `k`-th on, the last that is merged is of another
/// input, if the `k`-th is.
proof fn lemma_last_of_another(p: MultiSortMergeProcessor, k: int, j: int)
    requires
        p.wf(),
        0 <= k < p.history@.emitted.len(),
        p.history@.emitted[k].0 != j,
        p.taken(j) == count_of(p.history@.emitted.take(k), j),
    ensures
        p.history@.emitted.last().0 != j,
{
    let emitted = p.history@.emitted;
    let front = emitted.take(emitted.len() - 1);
    if emitted.last().0 == j {
        lemma_count_take(emitted, emitted.len() - 1, j);
        lemma_count_take(front, k, j);
        assert(front.take(k) =~= emitted.take(k));
    }
}

/// The row that is merged next does not come after the next row of any input that has one.
proof fn lemma_next_is_least(
    p: MultiSortMergeProcessor,
    q: MultiSortMergeProcessor,
    k: int,
    j: int,
)
    requires
        p.wf(),
        q.wf(),
        is_fed_by(p, q),
        inputs_sorted(q.history@.arrived, q.sort_by()),
        0 <= k < p.history@.emitted.len(),
        0 <= j < p.n(),
        p.history@.emitted[k].0 != j,
        count_of(p.history@.emitted.take(k), j) < q.history@.arrived[j].len(),
    ensures
        entry_order(
            q.history@.arrived,
            p.history@.emitted[k],
            (j, count_of(p.history@.emitted.take(k), j) as int),
            q.sort_by(),
        ) <= 0,
{
    let by = p.sort_by();
    let emitted = p.history@.emitted;
    let some = p.history@.arrived;
    let e = emitted[k];
    let f = (j, count_of(emitted.take(k), j) as int);
    let last = emitted[emitted.len() - 1];
    lemma_fewer_rows_sorted(p, q);
    assert(p.sorted_so_far());
    assert(0 <= e.0 < p.n() && 0 <= e.1 < some[e.0].len());
    lemma_count_take(emitted, k, j);
    if p.taken(j) > f.1 {
        lemma_first_rows_merged(emitted, p.n(), j, f.1);
        let m = choose|m: int| 0 <= m < emitted.len() && emitted[m] == f;
        if m < k {
            lemma_merged_later(emitted, p.n(), m, k);
        }
        assert(entry_order(some, emitted[k], emitted[m], by) <= 0);
        assert(emitted[m].1 < some[emitted[m].0].len());
        lemma_same_order(p, q, e, f);
    } else {
        lemma_last_of_another(p, k, j);
        if p.cursor_finished@[j] {
            assert(p.taken(j) == some[j].len());
            assert(p.input_finished@[j]);
        } else {
            lemma_last_is_not_after(p, j);
            if k < emitted.len() - 1 {
                assert(entry_order(some, emitted[k], emitted[emitted.len() - 1], by) <= 0);
                lemma_row_order_transitive(
                    row_at(some, e).key,
                    e.0,
                    row_at(some, last).key,
                    last.0,
                    row_at(some, f).key,
                    f.0,
                    by,
                );
            }
            lemma_same_order(p, q, e, f);
        }
    }
}

/// Where the rows of every input come in order, the first of them do.
proof fn lemma_fewer_rows_sorted(p: MultiSortMergeProcessor, q: MultiSortMergeProcessor)
    requires
        p.shape(),
        q.shape(),
        is_fed_by(p, q),
        inputs_sorted(q.history@.arrived, q.sort_by()),
    ensures
        inputs_sorted(p.history@.arrived, p.sort_by()),
{
    let some = p.history@.arrived;
    let all = q.history@.arrived;
    assert forall|i: int, a: int, b: int|
        0 <= i < some.len() && 0 <= a <= b < some[i].len() implies key_order(
        (#[trigger] some[i][a]).key,
        (#[trigger] some[i][b]).key,
        p.sort_by(),
    ) <= 0 by {
        assert(some[i].is_prefix_of(all[i]));
        assert(all[i][a] == some[i][a] && all[i][b] == some[i][b]);
    }
}

/// Where the rows of every input come in order, a merge has at every time merged the first of the
/// rows that one with the same inputs merges by the end, whatever their limits, block sizes and the
/// times at which blocks come.
pub proof fn law_merged_rows_are_the_first(
    p: MultiSortMergeProcessor,
    q: MultiSortMergeProcessor,
    k: int,
)
    requires
        p.wf(),
        q.wf(),
        is_fed_by(p, q),
        has_merged_all(q),
        inputs_sorted(q.history@.arrived, q.sort_by()),
        0 <= k < p.history@.emitted.len(),
    ensures
        k < q.history@.emitted.len(),
        p.history@.emitted.take(k + 1) == q.history@.emitted.take(k + 1),
    decreases k,
{
    let by = p.sort_by();
    let few = p.history@.emitted;
    let many = q.history@.emitted;
    let all = q.history@.arrived;
    if k > 0 {
        law_merged_rows_are_the_first(p, q, k - 1);
    }
    assert(few.take(k) =~= many.take(k));
    let e = few[k];
    assert(0 <= e.0 < p.n() && e.1 == count_of(few.take(k), e.0));
    assert(p.history@.arrived[e.0].is_prefix_of(all[e.0]));
    assert(e.1 < all[e.0].len());
    assert(many.contains((e.0, e.1)));
    let m = choose|m: int| 0 <= m < many.len() && many[m] == e;
    if m < k {
        lemma_merged_later(many, q.n(), m, k);
    }
    assert(m >= k);
    let f = many[k];
    assert(0 <= f.0 < q.n() && f.1 == count_of(many.take(k), f.0));
    assert(f.1 < all[f.0].len());
    if f.0 != e.0 {
        assert(m > k);
        assert(q.sorted_so_far());
        assert(entry_order(all, many[k], many[m], by) <= 0);
        lemma_next_is_least(p, q, k, f.0);
        assert(f == (f.0, count_of(few.take(k), f.0) as int));
        lemma_row_order_antisymmetric(
            row_at(all, e).key,
            e.0,
            row_at(all, f).key,
            f.0,
            by,
        );
    }
    assert(f == e);
    assert(few.take(k + 1) =~= few.take(k).push(e));
    assert(many.take(k + 1) =~= many.take(k).push(f));
}

/// Where the rows of every input come in order, a merge with a limit sends exactly the first of the
/// rows that one without a limit sends, as many as the limit allows or as there are.
pub proof fn law_limited_merge_sends_the_first_rows(
    p: MultiSortMergeProcessor,
    q: MultiSortMergeProcessor,
    allowed: nat,
)
    requires
        p.wf(),
        q.wf(),
        p.width() > 0,
        is_fed_by(p, q),
        inputs_sorted(q.history@.arrived, q.sort_by()),
        p.history@.allowed == Some(allowed),
        q.history@.allowed is None,
        has_ended(p),
        has_ended(q),
    ensures
        joined(p.history@.sent, p.width()) == joined(q.history@.sent, q.width()).take(
            if allowed <= joined(q.history@.sent, q.width()).len() {
                allowed as int
            } else {
                joined(q.history@.sent, q.width()).len() as int
            },
        ),
{
    let few = p.history@.emitted;
    let many = q.history@.emitted;
    assert(q.limit is None);
    lemma_ended_has_merged_all(q);
    if few.len() > 0 {
        law_merged_rows_are_the_first(p, q, few.len() - 1);
        assert(few.take(few.len() as int) =~= few);
    }
    assert(few.len() <= many.len());
    assert forall|k: int| 0 <= k < p.history@.pushed.len() implies #[trigger] p.history@.pushed[k]
        == q.history@.pushed[k] by {
        assert(few.take(few.len() as int)[k] == many.take(few.len() as int)[k]);
        assert(few[k] == many[k]);
        assert(p.history@.pushed[k] == row_at(p.history@.arrived, few[k]).cells);
        assert(q.history@.pushed[k] == row_at(q.history@.arrived, many[k]).cells);
        assert(few[k].1 < p.history@.arrived[few[k].0].len());
        assert(p.history@.arrived[few[k].0].is_prefix_of(q.history@.arrived[few[k].0]));
    }
    if p.history@.pushed.len() < allowed {
        assert(p.limit != Some(0usize));
        lemma_ended_has_merged_all(p);
        if few.len() < many.len() {
            let f = many[few.len() as int];
            assert(many.take(few.len() as int) =~= few) by {
                if few.len() > 0 {
                    assert(few.take(few.len() as int) =~= few);
                }
            }
            assert(f.1 == count_of(few, f.0));
            let done = done_flags(p.input_finished@, p.cursor_finished@);
            lemma_count_unset_zero(done);
            assert(done[f.0]);
            assert(p.taken(f.0) == p.history@.arrived[f.0].len());
            assert(p.history@.arrived[f.0] == q.history@.arrived[f.0]);
        }
    }
    assert(p.history@.pushed =~= q.history@.pushed.take(p.history@.pushed.len() as int));
}

/// A merge that finishes while rows may still be sent to the output has ended: the limit is used up,
/// or the inputs have ended.
pub proof fn law_finished_merge_has_ended(
    before: MultiSortMergeProcessor,
    after: MultiSortMergeProcessor,
)
    requires
        before.wf(),
        after.wf(),
        after == (MultiSortMergeProcessor {
            inputs: after.inputs,
            input_finished: after.input_finished,
            state: after.state,
            output: after.output,
            ..before
        }),
        before.limit == Some(0usize) || consumed(before, after, Event::Finished),
    ensures
        has_ended(after),
{
}

/// A merge whose inputs have ended and that has no row on its way has merged every row.
proof fn lemma_ended_has_merged_all(q: MultiSortMergeProcessor)
    requires
        q.wf(),
        has_ended(q),
        q.limit != Some(0usize),
    ensures
        has_merged_all(q),
{
    assert forall|i: int, k: int|
        0 <= i < q.n() && 0 <= k < q.history@.arrived[i].len() implies
        #[trigger] q.history@.emitted.contains((i, k)) by {
        law_all_rows_leave(q, i, k);
    }
}

/// The row that leaves next comes before every other that waits, or is it.
pub proof fn law_least_row_leaves_first(p: MultiSortMergeProcessor, q: int)
    requires
        p.wf(),
        0 <= q < p.heads().len(),
    ensures
        leaving(p.heads(), p.sort_by(), 0) == p.heads()[q] || head_order(
            leaving(p.heads(), p.sort_by(), 0),
            p.heads()[q],
            p.sort_by(),
        ) < 0,
{
    let first = p.heads()[p.heads().len() - 1];
    assert(p.heads().last() == first);
}

/// No row waits that comes before one that was merged, where the rows of every input come in
/// order.
pub proof fn law_waiting_rows_follow(p: MultiSortMergeProcessor, k: int, q: int)
    requires
        p.wf(),
        inputs_sorted(p.history@.arrived, p.sort_by()),
        0 <= k < p.history@.emitted.len(),
        0 <= q < p.heap.cursors@.len(),
    ensures
        row_order(
            row_at(p.history@.arrived, p.history@.emitted[k]).key,
            p.history@.emitted[k].0,
            p.heads()[q].key(),
            p.heads()[q].input,
            p.sort_by(),
        ) <= 0,
{
    let emitted = p.history@.emitted;
    let arrived = p.history@.arrived;
    let c = p.heap.cursors@[q];
    let last = emitted[emitted.len() - 1];
    assert(p.sorted_so_far());
    assert(p.not_before_last(c));
    assert(p.cursor_ok(c));
    assert(p.all_but_rest_taken(c));
    assert(c.row_index < c.num_rows);
    lemma_next_row(p, c);
    if k < emitted.len() - 1 {
        assert(entry_order(arrived, emitted[k], emitted[emitted.len() - 1], p.sort_by()) <= 0);
        lemma_row_order_transitive(
            row_at(arrived, emitted[k]).key,
            emitted[k].0,
            row_at(arrived, last).key,
            last.0,
            p.heads()[q].key(),
            p.heads()[q].input,
            p.sort_by(),
        );
    }
}

} // verus!
