//! Laws on what a merge of sorted inputs does, step by step.

use std::sync::Arc;

use vstd::prelude::*;

use crate::exception::{ErrorCode, ErrorKind};
use crate::expression::block::DataBlock;
use crate::expression::schema::DataSchema;
use crate::expression::value::cell_view;
use crate::laws::expression::{
    is_absent, law_cells_are_told_apart, law_position_is_that_of_the_first, same_cell,
};
use crate::merge::cursor::{comparators_of, is_first_missing, names_missing_column};
use crate::merge::drain::drained;
use crate::merge::event::{consumed, lemma_heap_within_active};
use crate::merge::history::{
    block_row, block_rows, count_unset, ends_with, inputs_sorted, is_numbered,
    lemma_count_unset_positive, lemma_count_unset_zero, row_at, row_cells, sent_rows, tail_rows,
    Row,
};
use crate::merge::laws::{has_ended, law_finished_merge_has_sent_all_rows, law_rows_leave_in_order};
use crate::merge::order::{has_sort_columns, key_order, row_key, SortColumnDescription};
use crate::merge::output::last_only;
use crate::merge::port::{InputPort, OutputPort};
use crate::merge::process::{
    arrived_with, can_be_sorted, comes_from, comparing_failed, entered, flags_with, has_incoming,
    holds_progress, incoming_from, inputs_of, is_compared, is_first_unsorted, with_incoming,
};
use crate::merge::processor::{
    deliveries, delivers, done_flags, fails, is_first_failing, lemma_frame, none_fails, polled,
    polled_port, Event, MultiSortMergeProcessor, ProcessorState,
};
use crate::pipeline::pipe::{PipeItem, Pipeline};
use crate::pipeline::sort_merge::try_add_multi_sort_merge;

verus! {

/// A new merge has what it is given and nothing else: no block, no row that waits or is in
/// progress, nothing sent. It takes data when it comes.
pub proof fn law_new_merge_has_nothing(
    inputs: Vec<InputPort>,
    output: OutputPort,
    output_schema: Arc<DataSchema>,
    block_size: usize,
    limit: Option<usize>,
    sort: Arc<Vec<SortColumnDescription>>,
    r: MultiSortMergeProcessor,
    i: int,
    j: int,
)
    requires
        call_ensures(
            MultiSortMergeProcessor::create,
            (inputs, output, output_schema, block_size, limit, sort),
            r,
        ),
        0 <= i < inputs@.len(),
        0 <= j < inputs@.len(),
    ensures
        r.inputs@ == inputs@,
        r.output == output,
        r.output_schema == output_schema,
        r.block_size == block_size,
        r.limit == limit,
        r.sort_columns_descriptions == sort,
        r.blocks@.len() == inputs@.len() && r.blocks@[i]@.len() == 0,
        r.compare_map@.len() == inputs@.len() && r.compare_map@[i]@.len() == inputs@.len()
            && r.compare_map@[i]@[j]@.len() == 0,
        r.cursor_finished@.len() == inputs@.len() && r.cursor_finished@[i],
        r.input_finished@.len() == inputs@.len() && !r.input_finished@[i],
        r.in_progess_rows@.len() == 0,
        r.heap.cursors@.len() == 0,
        r.state is Consume,
        !r.aborting,
        r.history@.arrived.len() == inputs@.len() && r.history@.arrived[i].len() == 0,
        r.history@.emitted.len() == 0,
        r.history@.pushed.len() == 0,
        r.history@.sent.len() == 0,
        limit matches Some(rows) ==> r.history@.allowed == Some(rows as nat),
        limit is None ==> r.history@.allowed is None,
{
    assert(r.blocks_of(i).len() == 0);
    assert(comparators_of(r.compare_map, i, j).len() == 0);
}

/// A new merge whose ports nothing has come to can be asked what to do.
pub proof fn law_new_merge_can_begin(
    inputs: Vec<InputPort>,
    output: OutputPort,
    output_schema: Arc<DataSchema>,
    block_size: usize,
    limit: Option<usize>,
    sort: Arc<Vec<SortColumnDescription>>,
    r: MultiSortMergeProcessor,
)
    requires
        call_ensures(
            MultiSortMergeProcessor::create,
            (inputs, output, output_schema, block_size, limit, sort),
            r,
        ),
        forall|i: int| 0 <= i < inputs@.len() ==> (#[trigger] inputs@[i]).data is None,
    ensures
        r.wf(),
{
}

/// Any block may come to a port of a merge whose columns are equally long, one for each field, and
/// at least as many as the output has.
pub proof fn law_any_block_may_come(p: MultiSortMergeProcessor, block: DataBlock)
    requires
        block.schema.fields@.len() == block.columns@.len(),
        block.columns@.len() >= p.output_schema.fields@.len(),
        forall|c: int, d: int|
            0 <= c < block.columns@.len() && 0 <= d < block.columns@.len() ==> (
            #[trigger] block.columns@[c])@.len() == (#[trigger] block.columns@[d])@.len(),
    ensures
        p.fits(block),
        block.columns@.len() > 0 ==> block.rows() == block.columns@[0]@.len(),
{
    assert(block.schema@.len() == block.schema.fields@.len());
    if block.columns@.len() > 0 {
        assert(block.columns@[0]@.len() == block.rows());
    }
}

/// After data has come to a port, or it was said there that no more comes, a merge can go on.
pub proof fn law_merge_goes_on_when_data_comes(
    before: MultiSortMergeProcessor,
    after: MultiSortMergeProcessor,
)
    requires
        before.wf(),
        after == (MultiSortMergeProcessor { inputs: after.inputs, output: after.output, ..before }),
        after.inputs@.len() == before.inputs@.len(),
        forall|i: int|
            0 <= i < before.inputs@.len() ==> {
                &&& before.inputs@[i].finished ==> (#[trigger] after.inputs@[i]).finished
                &&& after.inputs@[i].data matches Some(Ok(block)) ==> after.fits(block)
            },
    ensures
        after.wf(),
{
    lemma_frame(before, after);
    if after.width() > 0 {
        assert(before.accounted());
        assert(after.accounted());
    }
    assert forall|k: int|
        0 <= k < after.history@.sent.len() implies after.can_be_sent(
        #[trigger] after.history@.sent[k],
    ) by {
        assert(before.can_be_sent(before.history@.sent[k]));
    }
    assert forall|i: int| 0 <= i < after.n() implies {
        &&& after.input_finished@[i] ==> (#[trigger] after.inputs@[i]).finished
        &&& after.inputs@[i].data matches Some(Ok(block)) ==> after.fits(block)
    } by {
        assert(before.input_finished@[i] ==> before.inputs@[i].finished);
    }
}

/// The merge stops with an error, and nothing is changed, once it was asked to stop.
pub proof fn law_interrupted_merge_stops(
    p: &mut MultiSortMergeProcessor,
    r: Result<Event, ErrorCode>,
)
    requires
        call_ensures(MultiSortMergeProcessor::event, (p,), r),
        old(p).aborting,
    ensures
        r matches Err(e) && e.kind == ErrorKind::AbortedQuery && e.message@
            == "Aborted query, because the server is shutting down or the query was killed."@
            && e.span is None,
        *final(p) == *old(p),
{
}

/// Asking a merge to stop changes nothing else.
pub proof fn law_interrupt_only_asks(p: &mut MultiSortMergeProcessor)
    requires
        call_ensures(MultiSortMergeProcessor::interrupt, (p,), ()),
    ensures
        final(p).aborting,
        *final(p) == (MultiSortMergeProcessor { aborting: true, ..*old(p) }),
{
}

/// All inputs of the second are told that no more is wanted, and are otherwise as in the first.
pub open spec fn all_inputs_finished(
    before: MultiSortMergeProcessor,
    after: MultiSortMergeProcessor,
) -> bool {
    &&& after.inputs@.len() == before.inputs@.len()
    &&& forall|i: int|
        0 <= i < after.inputs@.len() ==> (#[trigger] after.inputs@[i]).finished
            && after.inputs@[i].data == before.inputs@[i].data && after.inputs@[i].need_data
            == before.inputs@[i].need_data
}

/// Where no more is wanted behind the merge, all its inputs are told so and it finishes. Nothing
/// else is changed.
pub proof fn law_unwanted_merge_finishes(
    p: &mut MultiSortMergeProcessor,
    r: Result<Event, ErrorCode>,
)
    requires
        call_ensures(MultiSortMergeProcessor::event, (p,), r),
        !old(p).aborting,
        old(p).output.finished,
    ensures
        r == Ok::<Event, ErrorCode>(Event::Finished),
        all_inputs_finished(*old(p), *final(p)),
        *final(p) == (MultiSortMergeProcessor { inputs: final(p).inputs, ..*old(p) }),
{
}

/// Where nothing can be sent now, the merge waits and changes nothing.
pub proof fn law_merge_waits_for_the_output(
    p: &mut MultiSortMergeProcessor,
    r: Result<Event, ErrorCode>,
)
    requires
        call_ensures(MultiSortMergeProcessor::event, (p,), r),
        !old(p).aborting,
        !old(p).output.finished,
        !old(p).output.ready,
    ensures
        r == Ok::<Event, ErrorCode>(Event::NeedConsume),
        *final(p) == *old(p),
{
}

/// Where as many rows were sent as may be, all ports are told that it is over and the merge
/// finishes.
pub proof fn law_used_up_limit_finishes(
    p: &mut MultiSortMergeProcessor,
    r: Result<Event, ErrorCode>,
)
    requires
        call_ensures(MultiSortMergeProcessor::event, (p,), r),
        !old(p).aborting,
        !old(p).output.finished,
        old(p).output.ready,
        old(p).limit == Some(0usize),
    ensures
        r == Ok::<Event, ErrorCode>(Event::Finished),
        all_inputs_finished(*old(p), *final(p)),
        final(p).output.finished,
        final(p).output.data == old(p).output.data,
        *final(p) == (MultiSortMergeProcessor {
            inputs: final(p).inputs,
            output: final(p).output,
            ..*old(p)
        }),
{
}

/// The merge can do something: it is not stopped, and what it gives is wanted and can be sent.
pub open spec fn can_work(p: MultiSortMergeProcessor) -> bool {
    &&& !p.aborting
    &&& !p.output.finished
    &&& p.output.ready
    &&& p.limit != Some(0usize)
}

/// A block that was built is sent, as it is, and its rows count against the limit. The rows of a
/// block that is sent come behind those that were sent before.
pub proof fn law_built_block_is_sent(
    p: &mut MultiSortMergeProcessor,
    r: Result<Event, ErrorCode>,
    block: DataBlock,
)
    requires
        call_ensures(MultiSortMergeProcessor::event, (p,), r),
        can_work(*old(p)),
        old(p).state == ProcessorState::Generated(block),
    ensures
        r == Ok::<Event, ErrorCode>(Event::NeedConsume),
        final(p).output.data == Some(Ok::<DataBlock, ErrorCode>(block)),
        !final(p).output.ready,
        !final(p).output.finished,
        final(p).state is Consume,
        old(p).limit is None ==> final(p).limit is None,
        old(p).limit matches Some(limit) ==> (final(p).limit matches Some(left) && left == if limit
            >= block.rows() {
            limit - block.rows()
        } else {
            0
        }),
        final(p).history@.sent == old(p).history@.sent.push(block),
        final(p).history@.arrived == old(p).history@.arrived,
        final(p).history@.emitted == old(p).history@.emitted,
        final(p).history@.allowed == old(p).history@.allowed,
        *final(p) == (MultiSortMergeProcessor {
            output: final(p).output,
            state: final(p).state,
            limit: final(p).limit,
            history: final(p).history,
            ..*old(p)
        }),
{
}

/// The port brings data and it is taken: more may come, and no row of the input waits.
pub open spec fn is_taken(p: MultiSortMergeProcessor, i: int) -> bool {
    !p.inputs@[i].finished && p.cursor_finished@[i] && p.inputs@[i].data is Some
}

/// The port brings an error.
pub open spec fn is_error(p: MultiSortMergeProcessor, i: int) -> bool {
    is_taken(p, i) && p.inputs@[i].data.unwrap() is Err
}

/// No port brings an error.
pub open spec fn no_error(p: MultiSortMergeProcessor) -> bool {
    forall|i: int| 0 <= i < p.inputs@.len() ==> !#[trigger] is_error(p, i)
}

/// No port brings data.
pub open spec fn none_taken(p: MultiSortMergeProcessor) -> bool {
    forall|i: int| 0 <= i < p.inputs@.len() ==> !#[trigger] is_taken(p, i)
}

/// The port was asked: one that has ended is known to have ended and is as it was, and of the
/// others data is wanted. Data of an input of which no row waits is taken, other data stays.
pub open spec fn is_asked(
    before: MultiSortMergeProcessor,
    after: MultiSortMergeProcessor,
    i: int,
) -> bool {
    if before.inputs@[i].finished {
        after.inputs@[i] == before.inputs@[i] && after.input_finished@[i]
    } else {
        &&& !after.inputs@[i].finished
        &&& after.inputs@[i].need_data
        &&& after.inputs@[i].data == if before.cursor_finished@[i] {
            None
        } else {
            before.inputs@[i].data
        }
        &&& after.input_finished@[i] == before.input_finished@[i]
    }
}

proof fn lemma_nothing_fails(p: MultiSortMergeProcessor)
    requires
        p.shape(),
        no_error(p),
    ensures
        none_fails(p.inputs@, p.cursor_finished@),
{
    assert forall|i: int| 0 <= i < p.inputs@.len() implies !fails(
        #[trigger] p.inputs@[i],
        p.cursor_finished@[i],
    ) by {
        assert(!is_error(p, i));
    }
}

/// Where a merge looks for data and no port brings an error, every port is asked, and all that the
/// merge holds stays as it is.
pub proof fn law_every_input_is_asked(
    p: &mut MultiSortMergeProcessor,
    r: Result<Event, ErrorCode>,
    i: int,
)
    requires
        old(p).wf(),
        call_ensures(MultiSortMergeProcessor::event, (p,), r),
        can_work(*old(p)),
        old(p).state is Consume,
        no_error(*old(p)),
        0 <= i < old(p).inputs@.len(),
    ensures
        r is Ok,
        final(p).inputs@.len() == old(p).inputs@.len(),
        final(p).input_finished@.len() == old(p).input_finished@.len(),
        is_asked(*old(p), *final(p), i),
        *final(p) == (MultiSortMergeProcessor {
            inputs: final(p).inputs,
            input_finished: final(p).input_finished,
            state: final(p).state,
            output: final(p).output,
            ..*old(p)
        }),
{
    lemma_nothing_fails(*old(p));
    if let Err(e) = r {
        let k = choose|k: int|
            #[trigger] is_first_failing(old(p).inputs@, old(p).cursor_finished@, k) && old(
                p
            ).inputs@[k].data == Some(Err::<DataBlock, ErrorCode>(e));
        assert(fails(old(p).inputs@[k], old(p).cursor_finished@[k]));
    }
    assert(polled(old(p).inputs@, old(p).cursor_finished@, old(p).n())[i] == polled_port(
        old(p).inputs@[i],
        old(p).cursor_finished@[i],
    ));
}

/// Where a port brings an error, the first such error is handed on, and it is gone from the port.
pub proof fn law_first_error_is_handed_on(
    p: &mut MultiSortMergeProcessor,
    r: Result<Event, ErrorCode>,
    i: int,
)
    requires
        old(p).wf(),
        call_ensures(MultiSortMergeProcessor::event, (p,), r),
        can_work(*old(p)),
        old(p).state is Consume,
        0 <= i < old(p).inputs@.len(),
        is_error(*old(p), i),
        forall|j: int| 0 <= j < i ==> !#[trigger] is_error(*old(p), j),
    ensures
        r matches Err(e) && old(p).inputs@[i].data == Some(Err::<DataBlock, ErrorCode>(e)),
        final(p).inputs@[i].data is None,
        final(p).state is Consume,
        final(p).output == old(p).output,
        final(p).history == old(p).history,
        final(p).blocks == old(p).blocks,
{
    assert(fails(old(p).inputs@[i], old(p).cursor_finished@[i]));
    if let Err(e) = r {
        let k = choose|k: int|
            {
                &&& #[trigger] is_first_failing(old(p).inputs@, old(p).cursor_finished@, k)
                &&& old(p).inputs@[k].data == Some(Err::<DataBlock, ErrorCode>(e))
                &&& final(p).inputs@ == polled(old(p).inputs@, old(p).cursor_finished@, k + 1)
            };
        if k < i {
            assert(!is_error(*old(p), k));
        } else if i < k {
            assert(!fails(old(p).inputs@[i], old(p).cursor_finished@[i]));
        }
        assert(k == i);
    }
}

proof fn lemma_taken_blocks(p: MultiSortMergeProcessor, k: int)
    requires
        p.shape(),
        no_error(p),
        0 <= k <= p.inputs@.len() <= usize::MAX,
    ensures
        ({
            let all = deliveries(p.inputs@, p.cursor_finished@, k);
            &&& forall|s: int|
                #![trigger all[s]]
                0 <= s < all.len() ==> all[s].0 < k && is_taken(p, all[s].0 as int)
                    && p.inputs@[all[s].0 as int].data == Some(Ok::<DataBlock, ErrorCode>(all[s].1))
            &&& forall|s: int, t: int|
                0 <= s < t < all.len() ==> (#[trigger] all[s]).0 < (#[trigger] all[t]).0
            &&& forall|i: int|
                0 <= i < k && #[trigger] is_taken(p, i) ==> exists|s: int|
                    0 <= s < all.len() && (#[trigger] all[s]).0 == i
        }),
    decreases k,
{
    if k > 0 {
        lemma_taken_blocks(p, k - 1);
        assert(!is_error(p, k - 1));
        let front = deliveries(p.inputs@, p.cursor_finished@, k - 1);
        let all = deliveries(p.inputs@, p.cursor_finished@, k);
        if is_taken(p, k - 1) {
            assert(delivers(p.inputs@[k - 1], p.cursor_finished@[k - 1]));
            assert forall|i: int| 0 <= i < k && #[trigger] is_taken(p, i) implies exists|s: int|
                0 <= s < all.len() && (#[trigger] all[s]).0 == i by {
                if i < k - 1 {
                    let s = choose|s: int| 0 <= s < front.len() && (#[trigger] front[s]).0 == i;
                    assert(all[s] == front[s]);
                } else {
                    assert(all[front.len() as int].0 == i);
                }
            }
        } else {
            assert(all == front);
        }
    }
}

/// The blocks are those that the ports bring, each with its input, in the order of the inputs.
pub open spec fn are_the_taken(
    p: MultiSortMergeProcessor,
    blocks: Seq<(usize, DataBlock)>,
) -> bool {
    &&& forall|s: int|
        #![trigger blocks[s]]
        0 <= s < blocks.len() ==> blocks[s].0 < p.inputs@.len() && is_taken(p, blocks[s].0 as int)
            && p.inputs@[blocks[s].0 as int].data == Some(Ok::<DataBlock, ErrorCode>(blocks[s].1))
    &&& forall|s: int, t: int|
        0 <= s < t < blocks.len() ==> (#[trigger] blocks[s]).0 < (#[trigger] blocks[t]).0
    &&& forall|i: int|
        0 <= i < p.inputs@.len() && #[trigger] is_taken(p, i) ==> exists|s: int|
            0 <= s < blocks.len() && (#[trigger] blocks[s]).0 == i
}

/// Blocks that have come are kept and merged next, all of them. Where none has come and rows wait,
/// those are merged next.
pub proof fn law_blocks_that_come_are_merged_next(
    p: &mut MultiSortMergeProcessor,
    r: Result<Event, ErrorCode>,
)
    requires
        old(p).wf(),
        call_ensures(MultiSortMergeProcessor::event, (p,), r),
        can_work(*old(p)),
        old(p).state is Consume,
        no_error(*old(p)),
        !none_taken(*old(p)) || old(p).heap.cursors@.len() > 0,
    ensures
        r == Ok::<Event, ErrorCode>(Event::Sync),
        final(p).state matches ProcessorState::Preserve(blocks) && are_the_taken(*old(p), blocks@),
        final(p).output == old(p).output,
{
    let before = *old(p);
    assert(before.inputs.len() == before.inputs@.len());
    lemma_taken_blocks(before, before.n());
    lemma_nothing_fails(before);
    if let Err(e) = r {
        let k = choose|k: int|
            #[trigger] is_first_failing(before.inputs@, before.cursor_finished@, k)
                && before.inputs@[k].data == Some(Err::<DataBlock, ErrorCode>(e));
        assert(fails(before.inputs@[k], before.cursor_finished@[k]));
    }
    let all = deliveries(before.inputs@, before.cursor_finished@, before.n());
    if !none_taken(before) {
        let i = choose|i: int| 0 <= i < before.inputs@.len() && #[trigger] is_taken(before, i);
        let s = choose|s: int| 0 <= s < all.len() && (#[trigger] all[s]).0 == i;
        assert(all.len() > 0);
    }
}

/// The input has ended and no row of it waits.
pub open spec fn is_done(p: MultiSortMergeProcessor, i: int) -> bool {
    p.input_finished@[i] && p.cursor_finished@[i]
}

/// All inputs have ended and no row waits.
pub open spec fn all_done(p: MultiSortMergeProcessor) -> bool {
    forall|i: int| 0 <= i < p.inputs@.len() ==> #[trigger] is_done(p, i)
}

/// No input is active exactly where all have ended and no row of them waits.
pub proof fn law_no_input_is_active_where_all_are_done(p: MultiSortMergeProcessor)
    requires
        p.shape(),
    ensures
        p.active() == 0 <==> all_done(p),
{
    let done = done_flags(p.input_finished@, p.cursor_finished@);
    if p.active() == 0 {
        lemma_count_unset_zero(done);
        assert forall|i: int| 0 <= i < p.inputs@.len() implies #[trigger] is_done(p, i) by {
            assert(done[i]);
        }
    }
    if p.active() != 0 {
        if all_done(p) {
            assert forall|i: int| 0 <= i < done.len() implies #[trigger] done[i] by {
                assert(is_done(p, i));
            }
            lemma_no_unset(done);
        }
    }
}

proof fn lemma_no_unset(flags: Seq<bool>)
    requires
        forall|i: int| 0 <= i < flags.len() ==> #[trigger] flags[i],
    ensures
        count_unset(flags) == 0,
    decreases flags.len(),
{
    if flags.len() > 0 {
        assert(flags[flags.len() - 1]);
        assert forall|i: int| 0 <= i < flags.len() - 1 implies #[trigger] flags.drop_last()[i] by {
            assert(flags[i]);
        }
        lemma_no_unset(flags.drop_last());
    }
}

/// Where no block has come and no row waits: the merge waits for data while an input may bring
/// some, then the rows in progress are sent, and then the output is told that it is over and the
/// merge finishes.
pub proof fn law_merge_ends_after_its_inputs(
    p: &mut MultiSortMergeProcessor,
    r: Result<Event, ErrorCode>,
)
    requires
        old(p).wf(),
        call_ensures(MultiSortMergeProcessor::event, (p,), r),
        can_work(*old(p)),
        old(p).state is Consume,
        none_taken(*old(p)),
        old(p).heap.cursors@.len() == 0,
    ensures
        !all_done(*final(p)) ==> r == Ok::<Event, ErrorCode>(Event::NeedData)
            && final(p).state is Consume && final(p).output == old(p).output,
        all_done(*final(p)) && old(p).in_progess_rows@.len() > 0 ==> r == Ok::<Event, ErrorCode>(
            Event::Sync,
        ) && final(p).state is Output && final(p).output == old(p).output,
        all_done(*final(p)) && old(p).in_progess_rows@.len() == 0 ==> r == Ok::<Event, ErrorCode>(
            Event::Finished,
        ) && final(p).output.finished && final(p).output.data == old(p).output.data,
{
    let before = *old(p);
    assert(before.inputs.len() == before.inputs@.len());
    assert forall|i: int| 0 <= i < before.inputs@.len() implies !#[trigger] is_error(before, i) by {
        assert(!is_taken(before, i));
    }
    lemma_taken_blocks(before, before.n());
    lemma_nothing_fails(before);
    if let Err(e) = r {
        let k = choose|k: int|
            #[trigger] is_first_failing(before.inputs@, before.cursor_finished@, k)
                && before.inputs@[k].data == Some(Err::<DataBlock, ErrorCode>(e));
        assert(fails(before.inputs@[k], before.cursor_finished@[k]));
    }
    let all = deliveries(before.inputs@, before.cursor_finished@, before.n());
    if all.len() > 0 {
        assert(is_taken(before, all[0].0 as int));
    }
    law_no_input_is_active_where_all_are_done(*final(p));
}

/// Rows in progress are to be sent, and blocks that were handed out to be merged must be merged
/// first.
pub proof fn law_next_task_is_not_forgotten(
    p: &mut MultiSortMergeProcessor,
    r: Result<Event, ErrorCode>,
)
    requires
        call_ensures(MultiSortMergeProcessor::event, (p,), r),
        can_work(*old(p)),
    ensures
        old(p).state is Output ==> r == Ok::<Event, ErrorCode>(Event::Sync) && *final(p) == *old(p),
        old(p).state is Preserve ==> *final(p) == *old(p) && (r matches Err(e) && e.kind
            == ErrorKind::LogicalError && e.message@ == "It's a bug."@),
{
}

/// A merge that finishes while more could be sent has ended, so every row that came was sent.
pub proof fn law_merge_that_finishes_has_ended(
    p: &mut MultiSortMergeProcessor,
    r: Result<Event, ErrorCode>,
)
    requires
        old(p).wf(),
        call_ensures(MultiSortMergeProcessor::event, (p,), r),
        !old(p).output.finished,
        r == Ok::<Event, ErrorCode>(Event::Finished),
    ensures
        has_ended(*final(p)),
        final(p).wf(),
{
}

/// What a merge is asked to do keeps it able to go on, and so does looking at its ports.
pub proof fn law_merge_stays_able_to_go_on(
    p: &mut MultiSortMergeProcessor,
    r: Result<Event, ErrorCode>,
    q: &mut MultiSortMergeProcessor,
    s: Result<(), ErrorCode>,
)
    requires
        call_ensures(MultiSortMergeProcessor::event, (p,), r),
        call_ensures(MultiSortMergeProcessor::process, (q,), s),
    ensures
        final(p).wf(),
        s is Ok ==> final(q).wf(),
{
}

/// The block that is built of the rows in progress has, in each row and each column of the output,
/// the cell of the block and row that the row in progress stands for. Then no row is in progress,
/// and of the blocks of each input the last stays.
pub proof fn law_block_is_built_of_the_rows_in_progress(
    p: &mut MultiSortMergeProcessor,
    r: Result<(), ErrorCode>,
    c: int,
    k: int,
)
    requires
        old(p).wf(),
        call_ensures(MultiSortMergeProcessor::process, (p,), r),
        old(p).state is Output,
        0 <= c < old(p).output_schema.fields@.len(),
        0 <= k < old(p).in_progess_rows@.len(),
    ensures
        r is Ok,
        final(p).state matches ProcessorState::Generated(block) && {
            let (i, b, row) = old(p).in_progess_rows@[k];
            &&& block.schema == old(p).output_schema
            &&& block.columns@.len() == old(p).output_schema.fields@.len()
            &&& block.columns@[c]@.len() == old(p).in_progess_rows@.len()
            &&& same_cell(
                block.columns@[c]@[k],
                old(p).blocks@[i as int]@[b as int].columns@[c]@[row as int],
            )
        },
        final(p).in_progess_rows@.len() == 0,
        final(p).history == old(p).history,
        final(p).heap == old(p).heap,
        final(p).limit == old(p).limit,
{
    let (i, b, row) = old(p).in_progess_rows@[k];
    if let ProcessorState::Generated(block) = final(p).state {
        assert(holds_progress(*old(p), block));
        assert(block.cell(c, k) == old(p).progress_cell(c, k));
        assert(block.columns@[c]@.len() == block.rows());
        law_cells_are_told_apart(
            block.columns@[c]@[k],
            old(p).blocks@[i as int]@[b as int].columns@[c]@[row as int],
        );
    }
}

/// Of the blocks of each input, the last stays when a block was built.
pub proof fn law_merged_blocks_are_dropped(
    p: &mut MultiSortMergeProcessor,
    r: Result<(), ErrorCode>,
    i: int,
)
    requires
        call_ensures(MultiSortMergeProcessor::process, (p,), r),
        old(p).state is Output,
        0 <= i < old(p).inputs@.len(),
    ensures
        old(p).blocks@[i]@.len() == 0 ==> final(p).blocks@[i]@.len() == 0,
        old(p).blocks@[i]@.len() > 0 ==> final(p).blocks@[i]@ == seq![old(p).blocks@[i]@.last()],
{
    assert(final(p).blocks_of(i) == last_only(old(p).blocks_of(i)));
    if old(p).blocks@[i]@.len() > 0 {
        assert(final(p).blocks@[i]@ =~= seq![old(p).blocks@[i]@.last()]);
    }
}

/// A merge that has nothing to do is not asked to do anything.
pub proof fn law_nothing_to_do_is_an_error(
    p: &mut MultiSortMergeProcessor,
    r: Result<(), ErrorCode>,
)
    requires
        call_ensures(MultiSortMergeProcessor::process, (p,), r),
        old(p).state is Consume || old(p).state is Generated,
    ensures
        r matches Err(e) && e.kind == ErrorKind::LogicalError && e.message@ == "It's a bug."@,
{
}

/// A row of a block as it comes in: what its columns hold, and what the columns that rows are
/// sorted by hold.
pub open spec fn is_row_of(
    row: Row,
    block: DataBlock,
    k: int,
    width: nat,
    by: Seq<SortColumnDescription>,
) -> bool {
    &&& row.key == row_key(block, by, k)
    &&& row.cells.len() == width
    &&& forall|c: int|
        0 <= c < width ==> #[trigger] row.cells[c] == cell_view(block.columns@[c]@[k])
}

/// A block that is merged brings its rows, behind those that its input has brought, and is kept
/// behind the other blocks of its input.
pub proof fn law_block_brings_its_rows(
    p: &mut MultiSortMergeProcessor,
    r: Result<(), ErrorCode>,
    blocks: Vec<(usize, DataBlock)>,
    s: int,
    k: int,
)
    requires
        old(p).wf(),
        call_ensures(MultiSortMergeProcessor::process, (p,), r),
        r is Ok,
        old(p).state == ProcessorState::Preserve(blocks),
        0 <= s < blocks@.len(),
    ensures
        ({
            let i = blocks@[s].0 as int;
            let block = blocks@[s].1;
            let came = old(p).history@.arrived[i];
            let now = final(p).history@.arrived[i];
            &&& final(p).blocks@[i]@ == old(p).blocks@[i]@.push(block)
            &&& now.len() == came.len() + block.rows()
            &&& now.take(came.len() as int) == came
            &&& 0 <= k < block.rows() ==> is_row_of(
                now[came.len() + k],
                block,
                k,
                old(p).output_schema.fields@.len(),
                old(p).sort_columns_descriptions@,
            )
        }),
{
    let before = *old(p);
    let incoming = blocks@;
    let i = incoming[s].0 as int;
    let middle = choose|middle: MultiSortMergeProcessor|
        #[trigger] entered(before, incoming, middle) && drained(middle, middle.heads(), *final(p))
            && *final(p) == (MultiSortMergeProcessor {
            cursor_finished: final(p).cursor_finished,
            in_progess_rows: final(p).in_progess_rows,
            heap: final(p).heap,
            state: final(p).state,
            history: final(p).history,
            ..middle
        });
    lemma_only_one_comes(before, incoming, s);
    assert(final(p).history@.arrived == arrived_with(before, incoming));
    let rows = block_rows(incoming[s].1, before.sort_by(), before.width());
    assert(final(p).history@.arrived[i] == before.history@.arrived[i] + rows);
    assert(final(p).history@.arrived[i].take(before.history@.arrived[i].len() as int)
        =~= before.history@.arrived[i]);
    if 0 <= k < incoming[s].1.rows() {
        assert(final(p).history@.arrived[i][before.history@.arrived[i].len() + k] == rows[k]);
        assert(rows[k].cells == row_cells(incoming[s].1, before.width(), k));
    }
    assert(middle.blocks@[i]@ == with_incoming(before.blocks@[i]@, incoming, i));
}

proof fn lemma_only_one_comes(
    before: MultiSortMergeProcessor,
    incoming: Seq<(usize, DataBlock)>,
    s: int,
)
    requires
        before.incoming_ok(incoming),
        0 <= s < incoming.len(),
    ensures
        has_incoming(incoming, incoming[s].0 as int),
        incoming_from(incoming, incoming[s].0 as int) == incoming[s].1,
{
    let i = incoming[s].0 as int;
    assert(comes_from(incoming, i, s));
    let t = choose|t: int| comes_from(incoming, i, t);
    if s < t {
        assert(incoming[s].0 != incoming[t].0);
    } else if t < s {
        assert(incoming[t].0 != incoming[s].0);
    }
}

/// An input that brings no block keeps its rows and blocks, when others are merged.
pub proof fn law_other_inputs_stay(
    p: &mut MultiSortMergeProcessor,
    r: Result<(), ErrorCode>,
    blocks: Vec<(usize, DataBlock)>,
    i: int,
)
    requires
        old(p).wf(),
        call_ensures(MultiSortMergeProcessor::process, (p,), r),
        r is Ok,
        old(p).state == ProcessorState::Preserve(blocks),
        0 <= i < old(p).inputs@.len(),
        forall|s: int| 0 <= s < blocks@.len() ==> (#[trigger] blocks@[s]).0 != i,
    ensures
        final(p).blocks@[i]@ == old(p).blocks@[i]@,
        final(p).history@.arrived[i] == old(p).history@.arrived[i],
        final(p).history@.sent == old(p).history@.sent,
        final(p).history@.allowed == old(p).history@.allowed,
        final(p).limit == old(p).limit,
        final(p).inputs == old(p).inputs,
        final(p).output == old(p).output,
        final(p).input_finished == old(p).input_finished,
{
    let before = *old(p);
    let incoming = blocks@;
    let middle = choose|middle: MultiSortMergeProcessor|
        #[trigger] entered(before, incoming, middle) && drained(middle, middle.heads(), *final(p))
            && *final(p) == (MultiSortMergeProcessor {
            cursor_finished: final(p).cursor_finished,
            in_progess_rows: final(p).in_progess_rows,
            heap: final(p).heap,
            state: final(p).state,
            history: final(p).history,
            ..middle
        });
    assert(!has_incoming(incoming, i)) by {
        if has_incoming(incoming, i) {
            let s = choose|s: int| comes_from(incoming, i, s);
            assert(incoming[s].0 != i);
        }
    }
    assert(middle.blocks@[i]@ == with_incoming(before.blocks@[i]@, incoming, i));
}

/// How many of the first `k` inputs have not ended or have a row that waits.
pub open spec fn active_among(p: MultiSortMergeProcessor, k: int) -> nat
    decreases k,
{
    if k <= 0 {
        0
    } else {
        active_among(p, k - 1) + if is_done(p, k - 1) {
            0nat
        } else {
            1nat
        }
    }
}

proof fn lemma_active_among(p: MultiSortMergeProcessor, k: int)
    requires
        p.input_finished@.len() == p.cursor_finished@.len(),
        0 <= k <= p.input_finished@.len(),
    ensures
        active_among(p, k) == count_unset(
            done_flags(p.input_finished@, p.cursor_finished@).take(k),
        ),
    decreases k,
{
    if k > 0 {
        lemma_active_among(p, k - 1);
        let done = done_flags(p.input_finished@, p.cursor_finished@);
        assert(done.take(k).drop_last() =~= done.take(k - 1));
        assert(done.take(k).last() == is_done(p, k - 1));
    }
}

/// An input is counted as active where it has not ended or has a row that waits.
pub proof fn law_active_inputs_are_counted(p: MultiSortMergeProcessor, r: usize)
    requires
        p.input_finished@.len() == p.cursor_finished@.len(),
        call_ensures(MultiSortMergeProcessor::nums_active_inputs, (&p,), r),
    ensures
        r == active_among(p, p.input_finished@.len() as int),
{
    lemma_active_among(p, p.input_finished@.len() as int);
    let done = done_flags(p.input_finished@, p.cursor_finished@);
    assert(done.take(p.input_finished@.len() as int) =~= done);
}

proof fn lemma_other_flags_stay(
    flags: Seq<bool>,
    incoming: Seq<(usize, DataBlock)>,
    t: int,
    i: int,
)
    requires
        0 <= t <= incoming.len(),
        0 <= i < flags.len(),
        forall|s: int| 0 <= s < incoming.len() ==> (#[trigger] incoming[s]).0 < flags.len(),
        forall|s: int| 0 <= s < incoming.len() ==> (#[trigger] incoming[s]).0 != i,
    ensures
        flags_with(flags, incoming, t).len() == flags.len(),
        flags_with(flags, incoming, t)[i] == flags[i],
    decreases t,
{
    if t > 0 {
        lemma_other_flags_stay(flags, incoming, t - 1, i);
        assert(incoming[t - 1].0 != i);
    }
}

proof fn lemma_flags_len(flags: Seq<bool>, incoming: Seq<(usize, DataBlock)>, t: int)
    requires
        0 <= t <= incoming.len(),
        forall|s: int| 0 <= s < incoming.len() ==> (#[trigger] incoming[s]).0 < flags.len(),
    ensures
        flags_with(flags, incoming, t).len() == flags.len(),
    decreases t,
{
    if t > 0 {
        lemma_flags_len(flags, incoming, t - 1);
    }
}

proof fn lemma_active_stays(
    before: MultiSortMergeProcessor,
    incoming: Seq<(usize, DataBlock)>,
    middle: MultiSortMergeProcessor,
)
    requires
        before.wf(),
        before.incoming_ok(incoming),
        incoming.len() > 0 || before.heap.cursors@.len() > 0,
        entered(before, incoming, middle),
    ensures
        middle.active() == before.active(),
        before.active() == active_among(before, before.n()),
        before.active() > 0,
{
    let was = done_flags(before.input_finished@, before.cursor_finished@);
    let now = done_flags(middle.input_finished@, middle.cursor_finished@);
    lemma_flags_len(before.cursor_finished@, incoming, incoming.len() as int);
    assert forall|i: int| 0 <= i < was.len() implies #[trigger] was[i] == now[i] by {
        if before.input_finished@[i] {
            assert forall|s: int| 0 <= s < incoming.len() implies (
            #[trigger] incoming[s]).0 != i by {
                assert(!before.input_finished@[incoming[s].0 as int]);
            }
            lemma_other_flags_stay(
                before.cursor_finished@,
                incoming,
                incoming.len() as int,
                i,
            );
        }
    }
    assert(was =~= now);
    lemma_active_among(before, before.n());
    assert(was.take(before.n()) =~= was);
    if incoming.len() > 0 {
        assert(!before.input_finished@[incoming[0].0 as int]);
        lemma_count_unset_positive(was, incoming[0].0 as int);
    } else {
        lemma_heap_within_active(before);
    }
}

/// Rows come to be in progress behind those that are, and each is merged behind those that were. A
/// block is built where rows came to be in progress and they are enough for one or as many as may
/// still be sent, and else the merge looks for data. No row waits that could be merged: as many
/// rows are in progress as may be sent, or no row waits, or none does of an input that may bring
/// one.
pub proof fn law_rows_are_merged_as_far_as_they_can(
    p: &mut MultiSortMergeProcessor,
    r: Result<(), ErrorCode>,
    blocks: Vec<(usize, DataBlock)>,
)
    requires
        old(p).wf(),
        call_ensures(MultiSortMergeProcessor::process, (p,), r),
        r is Ok,
        old(p).state == ProcessorState::Preserve(blocks),
    ensures
        ({
            let was = old(p).in_progess_rows@;
            let now = final(p).in_progess_rows@;
            let more = now.len() > was.len();
            let at_limit = more && old(p).limit == Some(final(p).in_progess_rows.len());
            &&& now.len() >= was.len()
            &&& now.take(was.len() as int) == was
            &&& final(p).history@.emitted.len() == old(p).history@.emitted.len() + (now.len()
                - was.len())
            &&& final(p).history@.emitted.take(old(p).history@.emitted.len() as int) == old(
                p
            ).history@.emitted
            &&& at_limit || (more && now.len() >= old(p).block_size) ==> final(p).state is Output
            &&& !at_limit && !(more && now.len() >= old(p).block_size)
                ==> final(p).state is Consume
            &&& at_limit || final(p).heap.cursors@.len() == 0 || final(p).heap.cursors@.len()
                < active_among(*old(p), old(p).inputs@.len() as int)
        }),
{
    let before = *old(p);
    let incoming = blocks@;
    let middle = choose|middle: MultiSortMergeProcessor|
        #[trigger] entered(before, incoming, middle) && drained(middle, middle.heads(), *final(p))
            && *final(p) == (MultiSortMergeProcessor {
            cursor_finished: final(p).cursor_finished,
            in_progess_rows: final(p).in_progess_rows,
            heap: final(p).heap,
            state: final(p).state,
            history: final(p).history,
            ..middle
        });
    assert(final(p).in_progess_rows@.take(before.in_progess_rows@.len() as int)
        =~= before.in_progess_rows@);
    assert(final(p).heads().len() == final(p).heap.cursors@.len());
    lemma_active_stays(before, incoming, middle);
}

/// The block has a column of each name that rows are sorted by.
pub open spec fn has_columns(block: DataBlock, by: Seq<SortColumnDescription>) -> bool {
    forall|k: int|
        0 <= k < by.len() ==> !is_absent(block.schema.fields@, (#[trigger] by[k]).column_name@)
}

pub proof fn lemma_has_columns(block: DataBlock, by: Seq<SortColumnDescription>)
    ensures
        has_columns(block, by) <==> has_sort_columns(block, by),
{
    assert forall|k: int| 0 <= k < by.len() implies (is_absent(
        block.schema.fields@,
        (#[trigger] by[k]).column_name@,
    ) <==> block.named_column(by[k].column_name@) is None) by {
        law_position_is_that_of_the_first(block.schema.fields@, by[k].column_name@, 0);
    }
    if has_columns(block, by) {
        assert forall|k: int| 0 <= k < by.len() implies block.named_column(
            (#[trigger] by[k]).column_name@,
        ) is Some by {
            assert(!is_absent(block.schema.fields@, by[k].column_name@));
        }
    }
    if has_sort_columns(block, by) {
        assert forall|k: int| 0 <= k < by.len() implies !is_absent(
            block.schema.fields@,
            (#[trigger] by[k]).column_name@,
        ) by {
            assert(block.named_column(by[k].column_name@) is Some);
        }
    }
}

/// Blocks that have the columns that rows are sorted by are merged, whatever else they hold.
pub proof fn law_blocks_with_the_columns_are_merged(
    p: &mut MultiSortMergeProcessor,
    r: Result<(), ErrorCode>,
    blocks: Vec<(usize, DataBlock)>,
)
    requires
        old(p).wf(),
        call_ensures(MultiSortMergeProcessor::process, (p,), r),
        old(p).state == ProcessorState::Preserve(blocks),
        forall|s: int|
            0 <= s < blocks@.len() ==> has_columns(
                (#[trigger] blocks@[s]).1,
                old(p).sort_columns_descriptions@,
            ),
        forall|i: int|
            0 <= i < old(p).inputs@.len() && (#[trigger] old(p).blocks@[i])@.len() > 0
                ==> has_columns(old(p).blocks@[i]@.last(), old(p).sort_columns_descriptions@),
    ensures
        r is Ok,
{
    let before = *old(p);
    let after = *final(p);
    let incoming = blocks@;
    let by = before.sort_by();
    assert(after.sort_by() == by && after.n() == before.n());
    assert forall|s: int| 0 <= s < incoming.len() implies has_sort_columns(
        (#[trigger] incoming[s]).1,
        by,
    ) by {
        lemma_has_columns(incoming[s].1, by);
    }
    assert forall|i: int, s: int|
        0 <= s < incoming.len() && #[trigger] is_compared(after, incoming, i, s) implies {
        &&& has_sort_columns(after.blocks_of(i).last(), by)
        &&& has_sort_columns(incoming[s].1, by)
    } by {
        assert(has_sort_columns(incoming[s].1, by));
        assert(after.blocks@[i]@ == with_incoming(before.blocks@[i]@, incoming, i));
        if has_incoming(incoming, i) {
            let t = choose|t: int| comes_from(incoming, i, t);
            assert(has_sort_columns(incoming[t].1, by));
        } else {
            assert(before.blocks@[i]@.len() > 0);
            lemma_has_columns(before.blocks@[i]@.last(), by);
        }
    }
    assert(can_be_sorted(after, incoming));
}

/// A block that has rows and not all columns that rows are sorted by is refused. The error names
/// such a column.
pub proof fn law_block_without_a_column_is_refused(
    p: &mut MultiSortMergeProcessor,
    r: Result<(), ErrorCode>,
    blocks: Vec<(usize, DataBlock)>,
    s: int,
)
    requires
        old(p).wf(),
        call_ensures(MultiSortMergeProcessor::process, (p,), r),
        old(p).state == ProcessorState::Preserve(blocks),
        0 <= s < blocks@.len(),
        blocks@[s].1.rows() > 0,
        !has_columns(blocks@[s].1, old(p).sort_columns_descriptions@),
    ensures
        r matches Err(e) && e.kind == ErrorKind::UnknownColumn && e.span is None && exists|k: int|
            0 <= k < old(p).sort_columns_descriptions@.len() && (#[trigger] old(
                p
            ).sort_columns_descriptions@[k]).column_name@ == e.message@,
        final(p).in_progess_rows == old(p).in_progess_rows,
        final(p).history@.emitted == old(p).history@.emitted,
        final(p).history@.sent == old(p).history@.sent,
{
    let before = *old(p);
    let after = *final(p);
    let incoming = blocks@;
    let by = before.sort_by();
    lemma_has_columns(incoming[s].1, by);
    assert(after.sort_by() == by);
    assert(incoming[s].1.rows() > 0);
    assert(!can_be_sorted(after, incoming));
    if let Err(e) = r {
        if comparing_failed(before, incoming, after, e) {
            let (i, t) = choose|i: int, t: int|
                #[trigger] after.is_first_failing_pair(inputs_of(incoming), i, t)
                    && names_missing_column(e, after.blocks_of(i).last(), incoming[t].1, by);
            let k = choose|k: int|
                #[trigger] is_first_missing(after.blocks_of(i).last(), incoming[t].1, by, k)
                    && e.says(ErrorKind::UnknownColumn, by[k].column_name@);
            assert(by[k].column_name@ == e.message@);
        } else {
            let t = choose|t: int|
                #[trigger] is_first_unsorted(incoming, by, t) && names_missing_column(
                    e,
                    incoming[t].1,
                    incoming[t].1,
                    by,
                );
            let k = choose|k: int|
                #[trigger] is_first_missing(incoming[t].1, incoming[t].1, by, k) && e.says(
                    ErrorKind::UnknownColumn,
                    by[k].column_name@,
                );
            assert(by[k].column_name@ == e.message@);
        }
    }
}

/// A row in progress is one of the last that were merged, and the block and row that it stands for
/// hold what came.
pub proof fn law_rows_in_progress_are_merged_last(p: MultiSortMergeProcessor, k: int)
    requires
        p.wf(),
        0 <= k < p.in_progess_rows@.len(),
    ensures
        p.in_progess_rows@.len() <= p.history@.emitted.len(),
        ({
            let (i, b, row) = p.in_progess_rows@[k];
            let (input, place) = p.history@.emitted[p.history@.emitted.len()
                - p.in_progess_rows@.len() + k];
            &&& i < p.inputs@.len()
            &&& b < p.blocks@[i as int]@.len()
            &&& row < p.blocks@[i as int]@[b as int].rows()
            &&& input == i
            &&& 0 <= place < p.history@.arrived[input].len()
            &&& is_row_of(
                p.history@.arrived[input][place],
                p.blocks@[i as int]@[b as int],
                row as int,
                p.output_schema.fields@.len(),
                p.sort_columns_descriptions@,
            )
        }),
{
    assert(p.row_ok(k));
    let (i, b, row) = p.in_progess_rows@[k];
    let at = p.history@.emitted.len() - p.in_progess_rows@.len() + k;
    assert(p.history@.emitted[at] == p.entry_of(k));
    let rows = p.history@.arrived[i as int];
    let blocks = p.blocks_of(i as int);
    assert(ends_with(rows, blocks, p.sort_by(), p.width()));
    assert(block_row(blocks[b as int], p.sort_by(), p.width(), row as int) == rows[rows.len()
        - tail_rows(blocks, b as int) + row]);
    assert(p.history@.emitted[at].1 >= 0) by {
        assert(is_numbered(p.history@.emitted, p.n()));
    }
}

/// The rows of a block that is sent come behind those that were sent, with the cells of the block.
pub proof fn law_sent_block_adds_its_rows(
    p: &mut MultiSortMergeProcessor,
    r: Result<Event, ErrorCode>,
    block: DataBlock,
    k: int,
    c: int,
)
    requires
        call_ensures(MultiSortMergeProcessor::event, (p,), r),
        can_work(*old(p)),
        old(p).state == ProcessorState::Generated(block),
        0 <= k < block.rows(),
        0 <= c < old(p).output_schema.fields@.len(),
    ensures
        final(p).history@.pushed.len() == old(p).history@.pushed.len() + block.rows(),
        final(p).history@.pushed.take(old(p).history@.pushed.len() as int) == old(
            p
        ).history@.pushed,
        final(p).history@.pushed[old(p).history@.pushed.len() + k].len() == old(
            p
        ).output_schema.fields@.len(),
        final(p).history@.pushed[old(p).history@.pushed.len() + k][c] == cell_view(
            block.columns@[c]@[k],
        ),
{
    let was = old(p).history@.pushed;
    assert(final(p).history@.pushed == was + sent_rows(block, old(p).width()));
    assert(final(p).history@.pushed.take(was.len() as int) =~= was);
    assert(final(p).history@.pushed[was.len() + k] == row_cells(block, old(p).width(), k));
}

/// The rows that were sent are the first that were merged, as they came.
pub proof fn law_sent_rows_are_the_first_merged(p: MultiSortMergeProcessor, k: int)
    requires
        p.wf(),
        p.output_schema.fields@.len() > 0,
        0 <= k < p.history@.pushed.len(),
    ensures
        p.history@.pushed.len() <= p.history@.emitted.len(),
        ({
            let (i, j) = p.history@.emitted[k];
            p.history@.pushed[k] == p.history@.arrived[i][j].cells
        }),
{
}

/// The rows of each input come in order.
pub open spec fn come_in_order(
    arrived: Seq<Seq<Row>>,
    by: Seq<SortColumnDescription>,
) -> bool {
    forall|i: int, a: int, b: int|
        0 <= i < arrived.len() && 0 <= a <= b < arrived[i].len() ==> key_order(
            (#[trigger] arrived[i][a]).key,
            (#[trigger] arrived[i][b]).key,
            by,
        ) <= 0
}

/// Where the rows of each input come in order, the rows are merged in order, and rows with the same
/// keys in the order of their inputs.
pub proof fn law_rows_are_merged_in_order(p: MultiSortMergeProcessor, a: int, b: int)
    requires
        p.wf(),
        come_in_order(p.history@.arrived, p.sort_columns_descriptions@),
        0 <= a < b < p.history@.emitted.len(),
    ensures
        ({
            let (i, j) = p.history@.emitted[a];
            let (k, l) = p.history@.emitted[b];
            let order = key_order(
                p.history@.arrived[i][j].key,
                p.history@.arrived[k][l].key,
                p.sort_columns_descriptions@,
            );
            &&& order <= 0
            &&& order == 0 ==> i <= k
        }),
{
    assert(inputs_sorted(p.history@.arrived, p.sort_by()));
    law_rows_leave_in_order(p, a, b);
    assert(row_at(p.history@.arrived, p.history@.emitted[a])
        == p.history@.arrived[p.history@.emitted[a].0][p.history@.emitted[a].1]);
    assert(row_at(p.history@.arrived, p.history@.emitted[b])
        == p.history@.arrived[p.history@.emitted[b].0][p.history@.emitted[b].1]);
}

/// A merge that finishes while no limit is used up has sent every row of every input.
pub proof fn law_finished_merge_has_sent_every_row(
    p: &mut MultiSortMergeProcessor,
    r: Result<Event, ErrorCode>,
    i: int,
    j: int,
)
    requires
        old(p).wf(),
        call_ensures(MultiSortMergeProcessor::event, (p,), r),
        r == Ok::<Event, ErrorCode>(Event::Finished),
        !old(p).output.finished,
        old(p).limit != Some(0usize),
        0 <= i < old(p).inputs@.len(),
        0 <= j < old(p).history@.arrived[i].len(),
    ensures
        exists|k: int|
            0 <= k < final(p).history@.emitted.len() && (#[trigger] final(p).history@.emitted[k])
                == (i, j),
        old(p).output_schema.fields@.len() > 0 ==> final(p).history@.pushed.len() == final(
            p
        ).history@.emitted.len(),
        final(p).history == old(p).history,
        final(p).heap.cursors@.len() == 0,
        final(p).output.finished,
{
    assert(old(p).state is Consume);
    assert(consumed(*old(p), *final(p), Event::Finished));
    law_finished_merge_has_sent_all_rows(*old(p), *final(p), i, j);
    assert(final(p).heads().len() == final(p).heap.cursors@.len());
}

/// No more rows are sent than the merge was made to send.
pub proof fn law_no_more_rows_are_sent_than_the_limit(p: MultiSortMergeProcessor, allowed: nat)
    requires
        p.wf(),
        p.output_schema.fields@.len() > 0,
        p.history@.allowed == Some(allowed),
    ensures
        p.history@.pushed.len() <= allowed,
        p.history@.emitted.len() <= allowed,
        p.limit matches Some(left) && left + p.history@.pushed.len() == allowed,
{
}

/// A pipeline with more than one output gets one pipe more, which merges them by what is given. One
/// that has a single output stays as it is, and one that has none is refused.
pub proof fn law_outputs_are_merged_into_one(
    pipeline: &mut Pipeline,
    schema: Arc<DataSchema>,
    block_size: usize,
    limit: Option<usize>,
    sort: Arc<Vec<SortColumnDescription>>,
    r: Result<(), ErrorCode>,
    i: int,
)
    requires
        call_ensures(
            try_add_multi_sort_merge,
            (pipeline, schema, block_size, limit, sort),
            r,
        ),
    ensures
        old(pipeline).pipes@.len() == 0 || old(pipeline).pipes@.last().output_length == 0
            ==> *final(pipeline) == *old(pipeline) && (r matches Err(e) && e.kind
            == ErrorKind::LogicalError && e.message@ == "Cannot resize empty pipe."@ && e.span
            is None),
        old(pipeline).pipes@.len() > 0 && old(pipeline).pipes@.last().output_length == 1 ==> r is Ok
            && *final(pipeline) == *old(pipeline),
        old(pipeline).pipes@.len() > 0 && old(pipeline).pipes@.last().output_length > 1 ==> {
            let pipe = final(pipeline).pipes@.last();
            let outputs = old(pipeline).pipes@.last().output_length;
            &&& r is Ok
            &&& final(pipeline).pipes@ == old(pipeline).pipes@.push(pipe)
            &&& pipe.input_length == outputs
            &&& pipe.output_length == 1
            &&& pipe.items@.len() == 1
            &&& pipe.items@[0] matches PipeItem::MultiSortMerge(merge) && merges_from_the_start(
                merge,
                outputs as nat,
                schema,
                block_size,
                limit,
                sort,
            )
        },
{
    let was = old(pipeline).pipes@;
    let now = final(pipeline).pipes@;
    if r is Ok && was.last().output_length > 1 {
        assert(now =~= was.push(now.last())) by {
            assert(now.drop_last() == was);
            assert forall|k: int| 0 <= k < was.len() implies now[k] == was[k] by {
                assert(now.drop_last()[k] == now[k]);
            }
        }
        if let PipeItem::MultiSortMerge(merge) = now.last().items@[0] {
            assert forall|k: int| 0 <= k < merge.inputs@.len() implies is_new_input(
                #[trigger] merge.inputs@[k],
            ) && merge.blocks@[k]@.len() == 0 by {
                assert(merge.blocks_of(k).len() == 0);
            }
        }
    }
}

/// A port that nothing has come to and nothing was said at.
pub open spec fn is_new_input(port: InputPort) -> bool {
    !port.finished && !port.need_data && port.data is None
}

/// The merge has that many inputs, is made of what is given, and has not begun.
pub open spec fn merges_from_the_start(
    merge: MultiSortMergeProcessor,
    inputs: nat,
    schema: Arc<DataSchema>,
    block_size: usize,
    limit: Option<usize>,
    sort: Arc<Vec<SortColumnDescription>>,
) -> bool {
    &&& merge.wf()
    &&& merge.inputs@.len() == inputs
    &&& forall|i: int|
        0 <= i < inputs ==> is_new_input(#[trigger] merge.inputs@[i])
            && merge.blocks@[i]@.len() == 0
    &&& !merge.output.finished && !merge.output.ready && merge.output.data is None
    &&& merge.output_schema == schema
    &&& merge.block_size == block_size
    &&& merge.limit == limit
    &&& merge.sort_columns_descriptions == sort
    &&& merge.state is Consume
    &&& !merge.aborting
    &&& merge.heap.cursors@.len() == 0
    &&& merge.in_progess_rows@.len() == 0
}

/// Asking the inputs for data takes all that they bring, in their order, and nothing else is
/// changed.
pub proof fn law_data_is_taken_from_every_input(
    p: &mut MultiSortMergeProcessor,
    r: Result<Vec<(usize, DataBlock)>, ErrorCode>,
    i: int,
)
    requires
        old(p).shape(),
        call_ensures(MultiSortMergeProcessor::get_data_blocks, (p,), r),
        no_error(*old(p)),
        0 <= i < old(p).inputs@.len(),
    ensures
        r matches Ok(blocks) && are_the_taken(*old(p), blocks@),
        is_asked(*old(p), *final(p), i),
        *final(p) == (MultiSortMergeProcessor {
            inputs: final(p).inputs,
            input_finished: final(p).input_finished,
            ..*old(p)
        }),
{
    let before = *old(p);
    assert(before.inputs.len() == before.inputs@.len());
    lemma_taken_blocks(before, before.n());
    lemma_nothing_fails(before);
    if let Err(e) = r {
        let k = choose|k: int|
            #[trigger] is_first_failing(before.inputs@, before.cursor_finished@, k)
                && before.inputs@[k].data == Some(Err::<DataBlock, ErrorCode>(e));
        assert(fails(before.inputs@[k], before.cursor_finished@[k]));
    }
    assert(polled(before.inputs@, before.cursor_finished@, before.n())[i] == polled_port(
        before.inputs@[i],
        before.cursor_finished@[i],
    ));
}

/// The name of a merge.
pub proof fn law_name_is_that_of_the_merge(p: MultiSortMergeProcessor, r: String)
    requires
        call_ensures(MultiSortMergeProcessor::name, (&p,), r),
    ensures
        r@ == "MultiSortMerge"@,
{
}

} // verus!
