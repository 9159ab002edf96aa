//! Merging the rows that wait.

use vstd::prelude::*;

use crate::merge::cursor::Cursor;
use crate::merge::event::lemma_heap_within_active;
use crate::merge::heads::{finished_after, head_order, heads_of, leaving, place, step, steps, Head};
use crate::merge::history::{
    block_row, entry_order, inputs_sorted, lemma_count_push, lemma_count_unset_update,
    lemma_numbered_push, row_at, tail_rows, ends_with, History,
};
use crate::merge::order::{lemma_row_order_transitive, SortColumnDescription};
use crate::merge::processor::{MultiSortMergeProcessor, ProcessorState};

verus! {

/// Where the row of the head is kept: its input, its block and its place there.
pub open spec fn kept_at(p: MultiSortMergeProcessor, head: Head) -> (usize, usize, usize) {
    (head.input as usize, (p.blocks_of(head.input).len() - 1) as usize, head.row as usize)
}

/// Rows leave, from those that wait in `heads`, as long as as many wait as there were active
/// inputs at first, and until the limit is reached. Enough rows for a block, the limit, or the end
/// of all inputs let a block be built.
pub open spec fn drained(
    before: MultiSortMergeProcessor,
    heads: Seq<Head>,
    after: MultiSortMergeProcessor,
) -> bool {
    let m = (after.in_progess_rows@.len() - before.in_progess_rows@.len()) as nat;
    let by = before.sort_by();
    let limit_reached = m > 0 && before.limit == Some(after.in_progess_rows.len());
    &&& after.in_progess_rows@.len() >= before.in_progess_rows@.len()
    &&& after.in_progess_rows@ == before.in_progess_rows@ + Seq::new(
        m,
        |k: int| kept_at(before, leaving(heads, by, k as nat)),
    )
    &&& after.heads() == steps(heads, by, m)
    &&& after.cursor_finished@ == finished_after(before.cursor_finished@, heads, by, m)
    &&& after.history@ == (History { emitted: after.history@.emitted, ..before.history@ })
    &&& after.history@.emitted.len() == before.history@.emitted.len() + m
    &&& after.history@.emitted.take(before.history@.emitted.len() as int)
        == before.history@.emitted
    &&& forall|k: nat|
        k < m ==> {
            &&& (#[trigger] steps(heads, by, k)).len() > 0
            &&& steps(heads, by, k).len() >= before.active()
            &&& k > 0 ==> before.limit != Some((before.in_progess_rows@.len() + k) as usize)
        }
    &&& limit_reached || after.heads().len() < before.active() || after.heads().len() == 0
    &&& if limit_reached || before.active() == 0 || (m > 0 && after.in_progess_rows@.len()
        >= before.block_size) {
        after.state is Output
    } else {
        after.state == before.state
    }
}

/// How many rows the heads and the blocks behind them have.
spec fn rest(heads: Seq<Head>) -> nat
    decreases heads.len(),
{
    if heads.len() == 0 {
        0
    } else {
        rest(heads.drop_last()) + (if heads.last().row < heads.last().rows {
            (heads.last().rows - heads.last().row) as nat
        } else {
            0nat
        })
    }
}

proof fn lemma_rest_push(heads: Seq<Head>, head: Head)
    ensures
        rest(heads.push(head)) == rest(heads) + (if head.row < head.rows {
            (head.rows - head.row) as nat
        } else {
            0nat
        }),
{
    assert(heads.push(head).drop_last() =~= heads);
}

proof fn lemma_rest_place(heads: Seq<Head>, head: Head, by: Seq<SortColumnDescription>)
    ensures
        rest(place(heads, head, by)) == rest(heads) + (if head.row < head.rows {
            (head.rows - head.row) as nat
        } else {
            0nat
        }),
    decreases heads.len(),
{
    if heads.len() == 0 || head_order(head, heads.last(), by) < 0 {
        lemma_rest_push(heads, head);
    } else {
        lemma_rest_place(heads.drop_last(), head, by);
        lemma_rest_push(place(heads.drop_last(), head, by), heads.last());
    }
}

proof fn lemma_rest_step(heads: Seq<Head>, by: Seq<SortColumnDescription>)
    requires
        heads.len() > 0,
        heads.last().row < heads.last().rows,
    ensures
        rest(step(heads, by)) < rest(heads),
{
    let first = heads.last();
    if first.row + 1 != first.rows {
        lemma_rest_place(heads.drop_last(), first.next(), by);
    }
}

/// The row that a cursor is at is the next one of its input that is to be merged.
pub proof fn lemma_next_row(p: MultiSortMergeProcessor, c: Cursor)
    requires
        p.shape(),
        p.blocks_ok(),
        p.cursor_ok(c),
        p.all_but_rest_taken(c),
        c.row_index < c.num_rows,
    ensures
        p.taken(c.input_index as int) < p.history@.arrived[c.input_index as int].len(),
        p.history@.arrived[c.input_index as int][p.taken(c.input_index as int) as int].key
            == c@.key(),
{
    let i = c.input_index as int;
    let blocks = p.blocks_of(i);
    let rows = p.history@.arrived[i];
    assert(ends_with(rows, blocks, p.sort_by(), p.width()));
    let b = blocks.len() - 1;
    assert(tail_rows(blocks, b + 1) == 0);
    assert(tail_rows(blocks, b) == blocks[b].rows());
    assert(block_row(blocks[b], p.sort_by(), p.width(), c.row_index as int) == rows[rows.len()
        - tail_rows(blocks, b) + c.row_index]);
}

/// The cursor is the one that was advanced, or waited already and was not the first.
spec fn stems_from(before: MultiSortMergeProcessor, advanced: Cursor, c: Cursor) -> bool {
    ||| advanced.row_index < advanced.num_rows && c == advanced
    ||| exists|q: int|
        0 <= q < before.heap.cursors@.len() - 1 && #[trigger] before.heap.cursors@[q] == c
}

/// Merging the first of the rows that wait keeps what holds of the blocks, cursors and rows.
#[verifier::spinoff_prover]
#[verifier::rlimit(40)]
proof fn lemma_emit(
    before: MultiSortMergeProcessor,
    after: MultiSortMergeProcessor,
    advanced: Cursor,
    at: int,
)
    requires
        before.sound(),
        before.heap.cursors@.len() > 0,
        forall|i: int|
            0 <= i < before.n() && #[trigger] before.cursor_finished@[i]
                ==> before.input_finished@[i],
        after.inputs == before.inputs,
        after.output_schema == before.output_schema,
        after.sort_columns_descriptions == before.sort_columns_descriptions,
        after.blocks == before.blocks,
        after.compare_map == before.compare_map,
        after.input_finished == before.input_finished,
        after.heap.wf(before.sort_by()),
        advanced == (Cursor {
            row_index: (before.heap.cursors@.last().row_index + 1) as usize,
            ..before.heap.cursors@.last()
        }),
        if advanced.row_index == advanced.num_rows {
            &&& after.heap.cursors@ == before.heap.cursors@.drop_last()
            &&& after.cursor_finished@ == before.cursor_finished@.update(
                advanced.input_index as int,
                true,
            )
        } else {
            &&& 0 <= at < before.heap.cursors@.len()
            &&& after.heap.cursors@ == before.heap.cursors@.drop_last().insert(at, advanced)
            &&& after.cursor_finished@ == before.cursor_finished@
        },
        after.in_progess_rows@ == before.in_progess_rows@.push(
            kept_at(before, before.heads().last()),
        ),
        after.history@ == (History {
            emitted: before.history@.emitted.push(
                (
                    advanced.input_index as int,
                    before.taken(advanced.input_index as int) as int,
                ),
            ),
            ..before.history@
        }),
    ensures
        after.sound(),
{
    let c = before.heap.cursors@.last();
    let i0 = c.input_index as int;
    let cursors = before.heap.cursors@;
    let last = cursors.len() - 1;
    let emitted = before.history@.emitted;
    let arrived = before.history@.arrived;
    let e = (i0, before.taken(i0) as int);
    let finished = advanced.row_index == advanced.num_rows;
    assert(c == cursors[last]);
    assert(before.cursor_ok(c));
    assert(before.all_but_rest_taken(c));
    assert(before.heads().last() == c@);
    assert(c.row_index < c.num_rows);
    assert(advanced.row_index == c.row_index + 1);
    lemma_next_row(before, c);
    lemma_numbered_push(emitted, before.n(), i0);
    lemma_count_unset_update(before.cursor_finished@, i0, true);
    // Every cursor that waits was there before, or is the one that was advanced.
    assert forall|p: int|
        #![trigger after.heap.cursors@[p]]
        0 <= p < after.heap.cursors@.len() implies stems_from(
        before,
        advanced,
        after.heap.cursors@[p],
    ) by {
        if finished {
            assert(cursors[p] == after.heap.cursors@[p]);
        } else if p < at {
            assert(cursors[p] == after.heap.cursors@[p]);
        } else if p > at {
            assert(cursors[p - 1] == after.heap.cursors@[p]);
        }
    }
    assert forall|q: int| 0 <= q < last implies (#[trigger] cursors[q]).input_index
        != c.input_index by {
        assert(before.heads()[q] == cursors[q]@);
        assert(before.heads()[last] == cursors[last]@);
    }
    assert forall|i: int| #[trigger] after.taken(i) == before.taken(i) + (if i == i0 {
        1nat
    } else {
        0nat
    }) by {
        lemma_count_push(emitted, e, i);
    }
    assert forall|p: int|
        #![trigger after.heap.cursors@[p]]
        0 <= p < after.heap.cursors@.len() implies after.cursor_ok(after.heap.cursors@[p])
        && after.all_but_rest_taken(after.heap.cursors@[p]) by {
        let d = after.heap.cursors@[p];
        if !(!finished && d == advanced) {
            let q = choose|q: int| 0 <= q < last && #[trigger] cursors[q] == d;
            assert(before.cursor_ok(cursors[q]));
            assert(before.all_but_rest_taken(cursors[q]));
            assert(after.taken(d.input_index as int) == before.taken(d.input_index as int));
        } else {
            assert(after.taken(i0) == before.taken(i0) + 1);
        }
    }
    assert(after.heap_ok());
    assert(after.map_ok()) by {
        assert forall|i: int, j: int|
            0 <= i < after.n() && 0 <= j < after.n() && i != j && after.blocks_of(i).len() > 0
                && after.blocks_of(j).len() > 0 implies #[trigger] after.comparable(i, j) by {
            assert(before.comparable(i, j));
        }
    }
    assert(after.rows_ok()) by {
        assert forall|k: int| 0 <= k < after.in_progess_rows@.len() implies #[trigger] after.row_ok(
            k,
        ) by {
            if k < before.in_progess_rows@.len() {
                assert(before.row_ok(k));
                assert(after.entry_of(k) == before.entry_of(k));
            } else {
                let blocks = before.blocks_of(i0);
                assert(tail_rows(blocks, blocks.len() as int) == 0);
                assert(tail_rows(blocks, blocks.len() - 1) == blocks.last().rows());
                assert(before.blocks@[i0].len() == blocks.len());
            }
        }
    }
    assert(after.blocks_ok()) by {
        assert forall|i: int| 0 <= i < after.n() implies #[trigger] ends_with(
            after.history@.arrived[i],
            after.blocks_of(i),
            after.sort_by(),
            after.width(),
        ) by {
            assert(before.blocks_of(i) == after.blocks_of(i));
        }
        assert forall|i: int, b: int|
            0 <= i < after.n() && 0 <= b < after.blocks_of(i).len() implies after.fits(
            #[trigger] after.blocks@[i]@[b],
        ) by {
            assert(before.fits(before.blocks@[i]@[b]));
        }
    }
    assert forall|i: int|
        0 <= i < after.n() && after.cursor_finished@[i] implies #[trigger] after.taken(i)
        == arrived[i].len() by {
        if i != i0 {
            assert(before.taken(i) == arrived[i].len());
        }
    }
    assert forall|i: int|
        0 <= i < after.n() && #[trigger] after.cursor_finished@[i] implies after.input_finished@[i]
        || after.history@.emitted.last().0 == i by {
        if i != i0 {
            assert(before.cursor_finished@[i]);
        }
    }
    if inputs_sorted(arrived, after.sort_by()) {
        assert(before.sorted_so_far());
        lemma_emit_sorted(before, after, advanced);
    }
    assert(after.history_ok(Set::empty()));
}

/// The first of the rows that wait comes after those that were merged and before those that wait.
#[verifier::spinoff_prover]
proof fn lemma_emit_sorted(
    before: MultiSortMergeProcessor,
    after: MultiSortMergeProcessor,
    advanced: Cursor,
)
    requires
        before.sound(),
        before.heap.cursors@.len() > 0,
        inputs_sorted(before.history@.arrived, before.sort_by()),
        before.sorted_so_far(),
        after.sort_columns_descriptions == before.sort_columns_descriptions,
        after.inputs == before.inputs,
        after.history@ == (History {
            emitted: before.history@.emitted.push(
                (
                    advanced.input_index as int,
                    before.taken(advanced.input_index as int) as int,
                ),
            ),
            ..before.history@
        }),
        advanced == (Cursor {
            row_index: (before.heap.cursors@.last().row_index + 1) as usize,
            ..before.heap.cursors@.last()
        }),
        forall|p: int|
            #![trigger after.heap.cursors@[p]]
            0 <= p < after.heap.cursors@.len() ==> stems_from(
                before,
                advanced,
                after.heap.cursors@[p],
            ),
    ensures
        after.sorted_so_far(),
{
    let cursors = before.heap.cursors@;
    let last = cursors.len() - 1;
    let c = cursors[last];
    let i0 = c.input_index as int;
    let emitted = before.history@.emitted;
    let arrived = before.history@.arrived;
    let by = before.sort_by();
    let e = (i0, before.taken(i0) as int);
    let more = after.history@.emitted;
    assert(before.cursor_ok(c));
    assert(before.all_but_rest_taken(c));
    lemma_next_row(before, c);
    assert(more =~= emitted.push(e));
    assert forall|a: int, b: int| 0 <= a < b < more.len() implies entry_order(
        arrived,
        #[trigger] more[a],
        #[trigger] more[b],
        by,
    ) <= 0 by {
        if b < emitted.len() {
            assert(more[a] == emitted[a] && more[b] == emitted[b]);
        } else {
            let x = emitted.last();
            assert(before.not_before_last(c));
            assert(entry_order(arrived, x, e, by) <= 0);
            assert(more[a] == emitted[a]);
            if a < emitted.len() - 1 {
                assert(entry_order(arrived, emitted[a], emitted[emitted.len() - 1], by) <= 0);
                lemma_row_order_transitive(
                    row_at(arrived, emitted[a]).key,
                    emitted[a].0,
                    row_at(arrived, x).key,
                    x.0,
                    row_at(arrived, e).key,
                    e.0,
                    by,
                );
            }
        }
    }
    assert forall|p: int|
        #![trigger after.heap.cursors@[p]]
        0 <= p < after.heap.cursors@.len() implies after.not_before_last(
        after.heap.cursors@[p],
    ) by {
        let d = after.heap.cursors@[p];
        let i = d.input_index as int;
        lemma_count_push(emitted, e, i);
        if advanced.row_index < advanced.num_rows && d == advanced {
            assert(after.taken(i0) == before.taken(i0) + 1);
            let t = before.taken(i0) as int;
            assert(t + 1 < arrived[i0].len());
            assert(crate::merge::order::key_order(
                (arrived[i0][t]).key,
                (arrived[i0][t + 1]).key,
                by,
            ) <= 0);
        } else {
            let q = choose|q: int| 0 <= q < last && #[trigger] cursors[q] == d;
            assert(before.cursor_ok(cursors[q]));
            assert(before.all_but_rest_taken(cursors[q]));
            assert(before.heads()[q] == cursors[q]@);
            assert(before.heads()[last] == cursors[last]@);
            assert(d.row_index < d.num_rows);
            lemma_next_row(before, d);
            assert(head_order(c@, d@, by) < 0);
            assert(after.taken(i) == before.taken(i));
        }
    }
}

/// Without its last cursor the heap is still in order.
proof fn lemma_popped(before: MultiSortMergeProcessor, after: MultiSortMergeProcessor)
    requires
        before.sound(),
        before.heap.cursors@.len() > 0,
        after.heap.cursors@ == before.heap.cursors@.drop_last(),
    ensures
        after.heap.wf(before.sort_by()),
        heads_of(after.heap.cursors@) == before.heads().drop_last(),
{
    let rest_heads = heads_of(after.heap.cursors@);
    assert(rest_heads =~= before.heads().drop_last());
    assert forall|a: int, b: int| 0 <= a < b < rest_heads.len() implies head_order(
        #[trigger] rest_heads[b],
        #[trigger] rest_heads[a],
        before.sort_by(),
    ) < 0 by {
        assert(rest_heads[a] == before.heads()[a]);
        assert(rest_heads[b] == before.heads()[b]);
    }
    assert forall|a: int, b: int|
        0 <= a < rest_heads.len() && 0 <= b < rest_heads.len() && a != b implies (
    #[trigger] rest_heads[a]).input != (#[trigger] rest_heads[b]).input by {
        assert(rest_heads[a] == before.heads()[a]);
        assert(rest_heads[b] == before.heads()[b]);
    }
    assert forall|p: int|
        #![trigger after.heap.cursors@[p]]
        0 <= p < after.heap.cursors@.len() implies crate::merge::heap::is_waiting(
        after.heap.cursors@[p],
        before.sort_by(),
    ) by {
        assert(after.heap.cursors@[p] == before.heap.cursors@[p]);
    }
}

/// The cursor that was taken out can be compared with those that still wait.
proof fn lemma_advanced_compares(
    before: MultiSortMergeProcessor,
    after: MultiSortMergeProcessor,
    advanced: Cursor,
)
    requires
        before.sound(),
        before.heap.cursors@.len() > 0,
        after.heap.cursors@ == before.heap.cursors@.drop_last(),
        advanced == (Cursor {
            row_index: (before.heap.cursors@.last().row_index + 1) as usize,
            ..before.heap.cursors@.last()
        }),
    ensures
        forall|p: int|
            0 <= p < after.heap.cursors@.len() ==> {
                &&& (#[trigger] after.heap.cursors@[p]).input_index != advanced.input_index
                &&& advanced.compared_by(after.heap.cursors@[p], before.compare_map)
            },
{
    let last = before.heap.cursors@.len() - 1;
    assert forall|p: int| 0 <= p < after.heap.cursors@.len() implies {
        &&& (#[trigger] after.heap.cursors@[p]).input_index != advanced.input_index
        &&& advanced.compared_by(after.heap.cursors@[p], before.compare_map)
    } by {
        let d = before.heap.cursors@[p];
        let c = before.heap.cursors@[last];
        assert(after.heap.cursors@[p] == d);
        assert(before.heads()[p] == d@ && before.heads()[last] == c@);
        assert(before.cursor_ok(c));
        assert(before.cursor_ok(d));
        assert(before.comparable(c.input_index as int, d.input_index as int));
    }
}

impl MultiSortMergeProcessor {
    /// Merges the rows that wait, as far as it is known which one comes next.
    #[verifier::spinoff_prover]
    #[verifier::rlimit(60)]
    pub fn drain_heap(&mut self)
        requires
            old(self).sound(),
            old(self).active() == 0 ==> old(self).in_progess_rows@.len() > 0,
        ensures
            final(self).sound(),
            *final(self) == (MultiSortMergeProcessor {
                cursor_finished: final(self).cursor_finished,
                in_progess_rows: final(self).in_progess_rows,
                heap: final(self).heap,
                state: final(self).state,
                history: final(self).history,
                ..*old(self)
            }),
            drained(*old(self), old(self).heads(), *final(self)),
    {
        let nums_active_inputs: usize = self.nums_active_inputs();
        let mut need_output = false;
        let mut running = true;
        let ghost start = *self;
        let ghost heads = self.heads();
        let ghost by = self.sort_by();
        let ghost mut m: nat = 0;
        proof {
            lemma_heap_within_active(start);
            assert(start.in_progess_rows@ =~= start.in_progess_rows@ + Seq::new(
                0,
                |k: int| kept_at(start, leaving(heads, by, k as nat)),
            ));
            assert(start.history@.emitted.take(start.history@.emitted.len() as int)
                =~= start.history@.emitted);
        }
        // As many rows wait as there are active inputs: the least of them comes next. Inputs that
        // have ended may still have rows that wait.
        while running && self.heap.len() >= nums_active_inputs
            invariant
                self.sound(),
                start == *old(self),
                heads == start.heads(),
                by == start.sort_by(),
                start.active() == nums_active_inputs,
                heads.len() <= nums_active_inputs,
                start.active() == 0 ==> start.in_progess_rows@.len() > 0,
                *self == (MultiSortMergeProcessor {
                    cursor_finished: self.cursor_finished,
                    in_progess_rows: self.in_progess_rows,
                    heap: self.heap,
                    state: self.state,
                    history: self.history,
                    ..start
                }),
                self.in_progess_rows@.len() == start.in_progess_rows@.len() + m,
                self.in_progess_rows@ == start.in_progess_rows@ + Seq::new(
                    m,
                    |k: int| kept_at(start, leaving(heads, by, k as nat)),
                ),
                self.heads() == steps(heads, by, m),
                self.cursor_finished@ == finished_after(start.cursor_finished@, heads, by, m),
                self.heap.cursors@.len() <= nums_active_inputs,
                self.heap.cursors@.len() == nums_active_inputs ==> self.cursor_finished@
                    == start.cursor_finished@,
                forall|k: nat|
                    k < m ==> {
                        &&& (#[trigger] steps(heads, by, k)).len() > 0
                        &&& steps(heads, by, k).len() >= nums_active_inputs
                        &&& k > 0 ==> start.limit != Some(
                            (start.in_progess_rows@.len() + k) as usize,
                        )
                    },
                self.history@ == (History { emitted: self.history@.emitted, ..start.history@ }),
                self.history@.emitted.len() == start.history@.emitted.len() + m,
                self.history@.emitted.take(start.history@.emitted.len() as int)
                    == start.history@.emitted,
                running ==> (m > 0 ==> start.limit != Some(self.in_progess_rows.len())),
                running ==> self.state == start.state,
                running ==> (need_output <==> m > 0 && self.in_progess_rows@.len()
                    >= start.block_size),
                !running && m == 0 ==> self.heap.cursors@.len() == 0 && nums_active_inputs == 0
                    && self.state is Output,
                !running && m > 0 ==> need_output && self.state == start.state && start.limit
                    == Some(self.in_progess_rows.len()),
            decreases rest(self.heads()), (if running { 1nat } else { 0nat }),
        {
            let ghost before = *self;
            proof {
                lemma_heap_within_active(before);
                assert(before.active() == start.active());
            }
            match self.heap.pop() {
                Some(mut cursor) => {
                    let ghost c = cursor;
                    assert(c == before.heap.cursors@[before.heap.cursors@.len() - 1]);
                    assert(before.heads().last() == c@);
                    assert(before.cursor_ok(c));
                    proof {
                        lemma_popped(before, *self);
                        lemma_rest_step(before.heads(), by);
                    }
                    let input_index: usize = cursor.input_index;
                    let row_index: usize = cursor.advance();
                    let ghost advanced = cursor;
                    let ghost mut at: int = 0;
                    if !cursor.is_finished() {
                        proof {
                            lemma_advanced_compares(before, *self, advanced);
                        }
                        let ghost rest_cursors = self.heap.cursors@;
                        self.heap.push(cursor, &self.compare_map);
                        proof {
                            at = choose|p: int|
                                0 <= p <= rest_cursors.len() && self.heap.cursors@
                                    == #[trigger] rest_cursors.insert(p, advanced);
                            assert(advanced@ == c@.next());
                        }
                    } else {
                        // All rows of the block were merged: the next block is needed.
                        self.cursor_finished.set(input_index, true);
                    }
                    let block_index: usize = self.blocks[input_index].len() - 1;
                    self.in_progess_rows.push((input_index, block_index, row_index));
                    proof {
                        self.history@ = History {
                            emitted: self.history@.emitted.push(
                                (input_index as int, before.taken(input_index as int) as int),
                            ),
                            ..self.history@
                        };
                        lemma_emit(before, *self, advanced, at);
                        assert(self.heads() == step(before.heads(), by));
                        assert(leaving(heads, by, m) == c@);
                        let grown = Seq::new(
                            m + 1,
                            |k: int| kept_at(start, leaving(heads, by, k as nat)),
                        );
                        assert(self.in_progess_rows@ =~= start.in_progess_rows@ + grown);
                        assert(self.history@.emitted.take(
                            start.history@.emitted.len() as int,
                        ) =~= start.history@.emitted);
                        assert((start.in_progess_rows@.len() + m) as usize
                            == before.in_progess_rows.len());
                        assert(steps(heads, by, m).len() == before.heap.cursors@.len());
                        m = m + 1;
                    }
                    if let Some(limit) = self.limit {
                        if self.in_progess_rows.len() == limit {
                            need_output = true;
                            running = false;
                        }
                    }
                    // There are enough rows for a block.
                    if self.in_progess_rows.len() >= self.block_size {
                        need_output = true;
                    }
                },
                None => {
                    // No input is active: all rows were merged.
                    proof {
                        if m > 0 {
                            assert(steps(heads, by, 0).len() > 0);
                        }
                    }
                    self.state = ProcessorState::Output;
                    running = false;
                    proof {
                        crate::merge::processor::lemma_frame(before, *self);
                    }
                },
            }
        }
        let ghost merged = *self;
        if need_output {
            self.state = ProcessorState::Output;
        }
        proof {
            crate::merge::processor::lemma_frame(merged, *self);
        }
    }
}

} // verus!
