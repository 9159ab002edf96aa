//! Laws on the pipeline that replaces rows of a table, behind where rows are sorted.

use vstd::prelude::*;

use crate::pipeline::builder::PipelineBuilder;
use crate::pipeline::pipe::{Pipe, PipeItem};
use crate::pipeline::replace_into::{
    block_and_spread_pipe, block_pipe, first_steps, mutator_pipe, mutator_steps, mutators,
    opening_steps, planned_mutators, segment_and_mutator_pipe, segment_pipe, segment_partitions,
    spread_pipe, step_views, ReplaceInto, ReplaceIntoStep, ReplaceIntoView,
};

verus! {

/// How many ports an item has, on the side where rows leave it or on that where they come.
pub open spec fn ports(item: PipeItem, leaving: bool) -> int {
    match item {
        PipeItem::Broadcast(n) => if leaving {
            n as int
        } else {
            1
        },
        PipeItem::ReplaceInto => if leaving {
            2
        } else {
            1
        },
        PipeItem::MultiSortMerge(processor) => if leaving {
            1
        } else {
            processor.inputs@.len() as int
        },
        _ => 1,
    }
}

/// How many ports the first `k` items have together.
pub open spec fn ports_before(items: Seq<PipeItem>, k: int, leaving: bool) -> int
    decreases k,
{
    if k <= 0 {
        0
    } else {
        ports_before(items, k - 1, leaving) + ports(items[k - 1], leaving)
    }
}

/// The ports of a pipe are those of its items, one item after the other: this one is the item's.
pub open spec fn owns_port(pipe: Pipe, k: int, port: int, leaving: bool) -> bool {
    &&& 0 <= k < pipe.items@.len()
    &&& ports_before(pipe.items@, k, leaving) <= port
    &&& port < ports_before(pipe.items@, k, leaving) + ports(pipe.items@[k], leaving)
}

/// What comes by that port goes to the mutator of a part, and leaves it by the port of the same
/// number. `first` ports are before those of the mutators.
pub open spec fn leads_to_mutator(pipe: Pipe, first: int, part: int) -> bool {
    &&& owns_port(pipe, first + part, first + part, false)
    &&& owns_port(pipe, first + part, first + part, true)
    &&& pipe.items@[first + part] matches PipeItem::MergeIntoMutator(p) && p == part
}

/// What leaves by those ports comes from the item: `n` of them, from `first` on.
pub open spec fn gives_all(pipe: Pipe, k: int, first: int, n: int) -> bool {
    forall|port: int| first <= port < first + n ==> #[trigger] owns_port(pipe, k, port, true)
}

proof fn lemma_one_port_each(items: Seq<PipeItem>, k: int, leaving: bool)
    requires
        0 <= k <= items.len(),
        forall|j: int| 0 <= j < k ==> ports(#[trigger] items[j], leaving) == 1,
    ensures
        ports_before(items, k, leaving) == k,
    decreases k,
{
    if k > 0 {
        lemma_one_port_each(items, k - 1, leaving);
        assert(ports(items[k - 1], leaving) == 1);
    }
}

/// `n` parts: one for each segment, but no more than there may be threads.
pub open spec fn is_part_count(replace: ReplaceInto, max_threads: u64, n: nat) -> bool {
    &&& n <= replace.segments@.len()
    &&& n <= max_threads as usize
    &&& n == replace.segments@.len() || n == max_threads as usize
}

proof fn lemma_steps(replace: ReplaceInto, max_threads: u64, r: Vec<ReplaceIntoStep>, n: nat)
    requires
        call_ensures(PipelineBuilder::build_replace_into, (&replace, max_threads), r),
        is_part_count(replace, max_threads, n),
    ensures
        r@.len() == 5 + opening_steps(replace, n).len(),
        forall|k: int| 0 <= k < 5 ==> (#[trigger] r@[k])@ == first_steps(replace)[k],
        forall|k: int| 5 <= k < r@.len() ==> (#[trigger] r@[k])@ == opening_steps(replace, n)[k - 5],
{
    let all = first_steps(replace) + opening_steps(replace, n);
    assert(segment_partitions(replace.segments@.len(), max_threads) == n);
    assert(step_views(r@) == all);
    assert(step_views(r@).len() == r@.len());
    assert forall|k: int| 0 <= k < r@.len() implies (#[trigger] r@[k])@ == all[k] by {
        assert(step_views(r@)[k] == r@[k]@);
    }
}

proof fn lemma_mutator_steps(
    replace: ReplaceInto,
    n: usize,
    max_threads: u64,
    r: Vec<ReplaceIntoStep>,
)
    requires
        call_ensures(PipelineBuilder::build_mutators, (&replace, n, max_threads), r),
    ensures
        r@.len() == 2,
        r@[0]@ == mutator_steps(replace, n as nat, max_threads)[0],
        r@[1]@ == mutator_steps(replace, n as nat, max_threads)[1],
{
    assert(step_views(r@).len() == r@.len());
    assert(step_views(r@)[0] == r@[0]@);
    assert(step_views(r@)[1] == r@[1]@);
}

/// Every plan can be built a pipeline for, but for what the machine cannot count.
pub proof fn law_every_replacement_can_be_built(replace: ReplaceInto, max_threads: u64, n: usize)
    requires
        replace.segments@.len() < usize::MAX,
        n < usize::MAX,
    ensures
        call_requires(PipelineBuilder::build_replace_into, (&replace, max_threads)),
        call_requires(PipelineBuilder::build_mutators, (&replace, n, max_threads)),
{
}

/// The table is looked up and checked, then statistics are made ready, then what the rows come from
/// is built, then what writes blocks and segments is made, each once and before any pipe is added,
/// and for blocks of the size of the plan.
pub proof fn law_replacement_is_made_ready_in_order(
    replace: ReplaceInto,
    max_threads: u64,
    r: Vec<ReplaceIntoStep>,
)
    requires
        call_ensures(PipelineBuilder::build_replace_into, (&replace, max_threads), r),
    ensures
        r@.len() >= 5,
        r@[0] is BuildTable,
        r@[1] is CheckTable,
        r@[2] matches ReplaceIntoStep::ClusterStats(t) && t == replace.block_thresholds,
        r@[3] is BuildInput,
        r@[4] matches ReplaceIntoStep::CreateSerializers(t) && t == replace.block_thresholds,
        forall|k: int|
            5 <= k < r@.len() ==> (#[trigger] r@[k]) is AddPipe || r@[k] is MaxThreads,
{
    let n = if replace.segments@.len() <= max_threads as usize {
        replace.segments@.len()
    } else {
        max_threads as usize as nat
    };
    lemma_steps(replace, max_threads, r, n);
    assert(r@[0]@ == first_steps(replace)[0]);
    assert(r@[1]@ == first_steps(replace)[1]);
    assert(r@[2]@ == first_steps(replace)[2]);
    assert(r@[3]@ == first_steps(replace)[3]);
    assert(r@[4]@ == first_steps(replace)[4]);
    assert forall|k: int| 5 <= k < r@.len() implies (#[trigger] r@[k]) is AddPipe
        || r@[k] is MaxThreads by {
        assert(r@[k]@ == opening_steps(replace, n)[k - 5]);
    }
}

/// Where rows are inserted and there are segments to merge into, the rows to append, that come by
/// the first port, go to what writes blocks and from there to what writes segments. The rows to
/// merge, that come by the second, are spread over the mutators, to each of them once.
pub proof fn law_rows_to_append_are_written_and_others_merged(
    replace: ReplaceInto,
    max_threads: u64,
    r: Vec<ReplaceIntoStep>,
    n: usize,
    threads_later: u64,
    m: Vec<ReplaceIntoStep>,
)
    requires
        call_ensures(PipelineBuilder::build_replace_into, (&replace, max_threads), r),
        is_part_count(replace, max_threads, n as nat),
        0 < n < usize::MAX,
        replace.need_insert,
        call_ensures(PipelineBuilder::build_mutators, (&replace, n, threads_later), m),
    ensures
        r@.len() == 7 && m@.len() == 2,
        r@[6] matches ReplaceIntoStep::MaxThreads(parts) && parts == n,
        r@[5] matches ReplaceIntoStep::AddPipe(spread) && {
            &&& spread.input_length == 2 && spread.output_length == n + 1 && spread.items@.len()
                == 2
            &&& owns_port(spread, 0, 0, false) && owns_port(spread, 0, 0, true)
                && spread.items@[0] is SerializeBlock
            &&& owns_port(spread, 1, 1, false) && spread.items@[1] == PipeItem::Broadcast(n)
            &&& gives_all(spread, 1, 1, n as int)
        },
        m@[1] matches ReplaceIntoStep::AddPipe(merge) && {
            &&& merge.input_length == n + 1 && merge.output_length == n + 1 && merge.items@.len()
                == n + 1
            &&& owns_port(merge, 0, 0, false) && owns_port(merge, 0, 0, true)
                && merge.items@[0] is SerializeSegment
            &&& forall|j: int| 0 <= j < n ==> #[trigger] leads_to_mutator(merge, 1, j)
        },
{
    lemma_steps(replace, max_threads, r, n as nat);
    lemma_mutator_steps(replace, n, threads_later, m);
    assert(r@[5]@ == opening_steps(replace, n as nat)[0]);
    assert(r@[6]@ == opening_steps(replace, n as nat)[1]);
    if let ReplaceIntoStep::AddPipe(spread) = r@[5] {
        assert(spread@ == block_and_spread_pipe(n as nat));
        reveal_with_fuel(ports_before, 3);
    }
    assert(m@[1]@ == ReplaceIntoView::AddPipe(segment_and_mutator_pipe(n as nat)));
    if let ReplaceIntoStep::AddPipe(merge) = m@[1] {
        assert(merge@ == segment_and_mutator_pipe(n as nat));
        let items = merge.items@;
        assert(items.len() == n + 1);
        assert forall|j: int| 0 <= j < n implies #[trigger] items[1 + j]
            == PipeItem::MergeIntoMutator(j as usize) by {
            assert(items[1 + j] == mutators(n as nat)[j]);
        }
        assert forall|k: int| 0 <= k < items.len() implies ports(#[trigger] items[k], false) == 1
            && ports(items[k], true) == 1 by {
            if k > 0 {
                assert(items[1 + (k - 1)] == PipeItem::MergeIntoMutator((k - 1) as usize));
            }
        }
        lemma_one_port_each(items, 0, false);
        lemma_one_port_each(items, 0, true);
        assert forall|j: int| 0 <= j < n implies #[trigger] leads_to_mutator(merge, 1, j) by {
            lemma_one_port_each(items, 1 + j, false);
            lemma_one_port_each(items, 1 + j, true);
            assert(items[1 + j] == PipeItem::MergeIntoMutator(j as usize));
        }
    }
}

/// Where rows are only deleted and there are segments to merge into, what comes is spread over the
/// mutators, to each of them once, and nothing is written.
pub proof fn law_rows_to_delete_are_merged(
    replace: ReplaceInto,
    max_threads: u64,
    r: Vec<ReplaceIntoStep>,
    n: usize,
    threads_later: u64,
    m: Vec<ReplaceIntoStep>,
)
    requires
        call_ensures(PipelineBuilder::build_replace_into, (&replace, max_threads), r),
        is_part_count(replace, max_threads, n as nat),
        0 < n < usize::MAX,
        !replace.need_insert,
        call_ensures(PipelineBuilder::build_mutators, (&replace, n, threads_later), m),
    ensures
        r@.len() == 7 && m@.len() == 2,
        r@[6] matches ReplaceIntoStep::MaxThreads(parts) && parts == n,
        r@[5] matches ReplaceIntoStep::AddPipe(spread) && {
            &&& spread.input_length == 1 && spread.output_length == n && spread.items@.len() == 1
            &&& owns_port(spread, 0, 0, false) && spread.items@[0] == PipeItem::Broadcast(n)
            &&& gives_all(spread, 0, 0, n as int)
        },
        m@[1] matches ReplaceIntoStep::AddPipe(merge) && {
            &&& merge.input_length == n && merge.output_length == n && merge.items@.len() == n
            &&& forall|j: int| 0 <= j < n ==> #[trigger] leads_to_mutator(merge, 0, j)
        },
{
    lemma_steps(replace, max_threads, r, n as nat);
    lemma_mutator_steps(replace, n, threads_later, m);
    assert(r@[5]@ == opening_steps(replace, n as nat)[0]);
    assert(r@[6]@ == opening_steps(replace, n as nat)[1]);
    if let ReplaceIntoStep::AddPipe(spread) = r@[5] {
        assert(spread@ == spread_pipe(n as nat));
        reveal_with_fuel(ports_before, 2);
    }
    assert(m@[1]@ == ReplaceIntoView::AddPipe(mutator_pipe(n as nat)));
    if let ReplaceIntoStep::AddPipe(merge) = m@[1] {
        assert(merge@ == mutator_pipe(n as nat));
        let items = merge.items@;
        assert forall|k: int| 0 <= k < items.len() implies ports(#[trigger] items[k], false) == 1
            && ports(items[k], true) == 1 by {
            assert(items[k] == mutators(n as nat)[k]);
        }
        assert forall|j: int| 0 <= j < n implies #[trigger] leads_to_mutator(merge, 0, j) by {
            lemma_one_port_each(items, j, false);
            lemma_one_port_each(items, j, true);
            assert(items[j] == mutators(n as nat)[j]);
        }
    }
}

/// Where rows are inserted and there is nothing to merge into, the rows to append are written,
/// block by block and then segment by segment, what else comes is passed on, and no mutators are
/// made.
pub proof fn law_rows_to_append_are_only_written(
    replace: ReplaceInto,
    max_threads: u64,
    r: Vec<ReplaceIntoStep>,
)
    requires
        call_ensures(PipelineBuilder::build_replace_into, (&replace, max_threads), r),
        is_part_count(replace, max_threads, 0),
        replace.need_insert,
    ensures
        r@.len() == 7,
        r@[5] matches ReplaceIntoStep::AddPipe(pipe) && pipe.input_length == 2
            && pipe.output_length == 2 && pipe.items@ == seq![
            PipeItem::SerializeBlock,
            PipeItem::Dummy,
        ],
        r@[6] matches ReplaceIntoStep::AddPipe(pipe) && pipe.input_length == 2
            && pipe.output_length == 2 && pipe.items@ == seq![
            PipeItem::SerializeSegment,
            PipeItem::Dummy,
        ],
{
    lemma_steps(replace, max_threads, r, 0);
    assert(r@[5]@ == opening_steps(replace, 0)[0]);
    assert(r@[6]@ == opening_steps(replace, 0)[1]);
    assert(r@[5]@ == ReplaceIntoView::AddPipe(block_pipe()));
    assert(r@[6]@ == ReplaceIntoView::AddPipe(segment_pipe()));
}

/// Where rows are only deleted and there is nothing to delete them from, no pipe is added.
pub proof fn law_nothing_is_added_where_nothing_is_deleted(
    replace: ReplaceInto,
    max_threads: u64,
    r: Vec<ReplaceIntoStep>,
)
    requires
        call_ensures(PipelineBuilder::build_replace_into, (&replace, max_threads), r),
        is_part_count(replace, max_threads, 0),
        !replace.need_insert,
    ensures
        r@.len() == 5,
{
    lemma_steps(replace, max_threads, r, 0);
}

/// The mutators are made before the pipe that they stand in is added, for all that the plan says of
/// the rows, segments and blocks, one for each part, and make as many requests at a time as there
/// may be threads.
pub proof fn law_mutators_work_by_the_plan(
    replace: ReplaceInto,
    n: usize,
    max_threads: u64,
    m: Vec<ReplaceIntoStep>,
)
    requires
        call_ensures(PipelineBuilder::build_mutators, (&replace, n, max_threads), m),
    ensures
        m@.len() == 2,
        m@[1] is AddPipe,
        m@[0] matches ReplaceIntoStep::CreateMutators(made) && {
            &&& made.partitions == n
            &&& made.requests == max_threads as usize
            &&& made.on_conflicts == replace.on_conflicts
            &&& made.bloom_filter_column_indexes == replace.bloom_filter_column_indexes
            &&& made.segments == replace.segments
            &&& made.block_slots == replace.block_slots
        },
{
    lemma_mutator_steps(replace, n, max_threads, m);
    assert(m@[0]@ == ReplaceIntoView::CreateMutators(
        planned_mutators(replace, n as nat, max_threads),
    ));
}

} // verus!
