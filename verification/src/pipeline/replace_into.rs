//! Replacing rows of a table: what the pipeline is built of behind the rows that come.

use std::sync::Arc;

use vstd::prelude::*;

use crate::pipeline::builder::{BlockSlots, BlockThresholds, OnConflictField, PipelineBuilder};
use crate::pipeline::pipe::{total_inputs, total_outputs, Pipe, PipeItem, PipeView};

verus! {

/// A plan to replace rows of a table.
pub struct ReplaceInto {
    pub block_thresholds: BlockThresholds,
    /// The fields by which it is found out which rows are replaced.
    pub on_conflicts: Arc<Vec<OnConflictField>>,
    /// The columns that have a filter of the values that are in them.
    pub bloom_filter_column_indexes: Arc<Vec<usize>>,
    /// The segments of the table that rows to be replaced may be in, by number and place.
    pub segments: Arc<Vec<(usize, String)>>,
    pub block_slots: Option<BlockSlots>,
    /// There are rows to insert, besides those to delete.
    pub need_insert: bool,
}

/// Mutators that are made, one for each of some parts of the segments.
pub struct Mutators {
    pub partitions: usize,
    /// How many requests they make at a time, all together.
    pub requests: usize,
    pub on_conflicts: Arc<Vec<OnConflictField>>,
    pub bloom_filter_column_indexes: Arc<Vec<usize>>,
    pub segments: Arc<Vec<(usize, String)>>,
    pub block_slots: Option<BlockSlots>,
}

/// What is done to build the pipeline, with the plan for what is not said.
pub enum ReplaceIntoStep {
    /// Look up the table.
    BuildTable,
    /// Make sure that the table can be replaced into.
    CheckTable,
    /// Make the generator of statistics of clusters, for blocks of that size.
    ClusterStats(BlockThresholds),
    /// Build the pipeline that the rows come from.
    BuildInput,
    /// Make the transforms that write blocks and segments, for blocks of that size.
    CreateSerializers(BlockThresholds),
    /// Add a pipe.
    AddPipe(Pipe),
    /// Ask how many threads there may be, and go on to merge in that many parts.
    MaxThreads(usize),
    /// Make the mutators.
    CreateMutators(Mutators),
}

/// A `ReplaceIntoStep` with the items of a pipe as a sequence.
#[verifier::ext_equal]
pub enum ReplaceIntoView {
    BuildTable,
    CheckTable,
    ClusterStats(BlockThresholds),
    BuildInput,
    CreateSerializers(BlockThresholds),
    AddPipe(PipeView),
    MaxThreads(usize),
    CreateMutators(Mutators),
}

impl View for ReplaceIntoStep {
    type V = ReplaceIntoView;

    open spec fn view(&self) -> ReplaceIntoView {
        match self {
            ReplaceIntoStep::BuildTable => ReplaceIntoView::BuildTable,
            ReplaceIntoStep::CheckTable => ReplaceIntoView::CheckTable,
            ReplaceIntoStep::ClusterStats(thresholds) => ReplaceIntoView::ClusterStats(
                *thresholds,
            ),
            ReplaceIntoStep::BuildInput => ReplaceIntoView::BuildInput,
            ReplaceIntoStep::CreateSerializers(
                thresholds,
            ) => ReplaceIntoView::CreateSerializers(*thresholds),
            ReplaceIntoStep::AddPipe(pipe) => ReplaceIntoView::AddPipe(pipe@),
            ReplaceIntoStep::MaxThreads(partitions) => ReplaceIntoView::MaxThreads(*partitions),
            ReplaceIntoStep::CreateMutators(mutators) => ReplaceIntoView::CreateMutators(
                *mutators,
            ),
        }
    }
}

/// The steps, with the items of pipes as sequences.
pub open spec fn step_views(steps: Seq<ReplaceIntoStep>) -> Seq<ReplaceIntoView> {
    steps.map_values(|s: ReplaceIntoStep| s@)
}

/// How many parts the segments are merged in: one for each segment, but no more than threads.
pub open spec fn segment_partitions(segments: nat, max_threads: u64) -> nat {
    if segments <= max_threads as usize {
        segments
    } else {
        max_threads as usize as nat
    }
}

/// As many mutators, in the order of their parts.
pub open spec fn mutators(n: nat) -> Seq<PipeItem> {
    Seq::new(n, |k: int| PipeItem::MergeIntoMutator(k as usize))
}

/// The mutators for the plan. They make as many requests at a time as there may be threads.
pub open spec fn planned_mutators(
    replace: ReplaceInto,
    partitions: nat,
    max_threads: u64,
) -> Mutators {
    Mutators {
        partitions: partitions as usize,
        requests: max_threads as usize,
        on_conflicts: replace.on_conflicts,
        bloom_filter_column_indexes: replace.bloom_filter_column_indexes,
        segments: replace.segments,
        block_slots: replace.block_slots,
    }
}

/// What is done before pipes are added.
pub open spec fn first_steps(replace: ReplaceInto) -> Seq<ReplaceIntoView> {
    seq![
        ReplaceIntoView::BuildTable,
        ReplaceIntoView::CheckTable,
        ReplaceIntoView::ClusterStats(replace.block_thresholds),
        ReplaceIntoView::BuildInput,
        ReplaceIntoView::CreateSerializers(replace.block_thresholds),
    ]
}

/// The pipe that spreads what comes over the mutators.
pub open spec fn spread_pipe(partitions: nat) -> PipeView {
    PipeView {
        input_length: 1,
        output_length: partitions,
        items: seq![PipeItem::Broadcast(partitions as usize)],
    }
}

/// The pipe of the mutators.
pub open spec fn mutator_pipe(partitions: nat) -> PipeView {
    PipeView {
        input_length: partitions,
        output_length: partitions,
        items: mutators(partitions),
    }
}

/// The pipe that writes blocks, where no segment is to be merged into.
pub open spec fn block_pipe() -> PipeView {
    PipeView {
        input_length: 2,
        output_length: 2,
        items: seq![PipeItem::SerializeBlock, PipeItem::Dummy],
    }
}

/// The pipe that writes segments, where no segment is to be merged into.
pub open spec fn segment_pipe() -> PipeView {
    PipeView {
        input_length: 2,
        output_length: 2,
        items: seq![PipeItem::SerializeSegment, PipeItem::Dummy],
    }
}

/// The pipe that writes blocks and spreads what is merged over the mutators.
pub open spec fn block_and_spread_pipe(partitions: nat) -> PipeView {
    PipeView {
        input_length: 2,
        output_length: partitions + 1,
        items: seq![PipeItem::SerializeBlock, PipeItem::Broadcast(partitions as usize)],
    }
}

/// The pipe that writes segments and merges.
pub open spec fn segment_and_mutator_pipe(partitions: nat) -> PipeView {
    PipeView {
        input_length: partitions + 1,
        output_length: partitions + 1,
        items: seq![PipeItem::SerializeSegment] + mutators(partitions),
    }
}

/// What is done for the pipes, up to where mutators are made.
pub open spec fn opening_steps(replace: ReplaceInto, partitions: nat) -> Seq<ReplaceIntoView> {
    if partitions == 0 {
        if replace.need_insert {
            seq![
                ReplaceIntoView::AddPipe(block_pipe()),
                ReplaceIntoView::AddPipe(segment_pipe()),
            ]
        } else {
            Seq::empty()
        }
    } else {
        seq![
            ReplaceIntoView::AddPipe(
                if replace.need_insert {
                    block_and_spread_pipe(partitions)
                } else {
                    spread_pipe(partitions)
                },
            ),
            ReplaceIntoView::MaxThreads(partitions as usize),
        ]
    }
}

/// What is done for the mutators, once it is known how many threads there may be.
pub open spec fn mutator_steps(
    replace: ReplaceInto,
    partitions: nat,
    max_threads: u64,
) -> Seq<ReplaceIntoView> {
    seq![
        ReplaceIntoView::CreateMutators(planned_mutators(replace, partitions, max_threads)),
        ReplaceIntoView::AddPipe(
            if replace.need_insert {
                segment_and_mutator_pipe(partitions)
            } else {
                mutator_pipe(partitions)
            },
        ),
    ]
}

/// All that is done for the pipes.
pub open spec fn pipe_steps(
    replace: ReplaceInto,
    partitions: nat,
    max_threads: u64,
) -> Seq<ReplaceIntoView> {
    if partitions == 0 {
        opening_steps(replace, partitions)
    } else {
        opening_steps(replace, partitions) + mutator_steps(replace, partitions, max_threads)
    }
}

fn push_mutators(items: &mut Vec<PipeItem>, n: usize)
    ensures
        final(items)@ == old(items)@ + mutators(n as nat),
{
    let ghost front = items@;
    let mut k: usize = 0;
    assert(front + mutators(0) =~= front);
    while k < n
        invariant
            k <= n,
            items@ == front + mutators(k as nat),
        decreases n - k,
    {
        items.push(PipeItem::MergeIntoMutator(k));
        k = k + 1;
        assert(items@ =~= front + mutators(k as nat));
    }
}

fn two_items(first: PipeItem, second: PipeItem) -> (r: Vec<PipeItem>)
    ensures
        r@ == seq![first, second],
{
    let mut items: Vec<PipeItem> = Vec::new();
    items.push(first);
    items.push(second);
    assert(items@ =~= seq![first, second]);
    items
}

fn push_step(steps: &mut Vec<ReplaceIntoStep>, step: ReplaceIntoStep)
    ensures
        step_views(final(steps)@) == step_views(old(steps)@).push(step@),
{
    let ghost before = steps@;
    steps.push(step);
    assert(step_views(steps@) =~= step_views(before).push(step@));
}

impl PipelineBuilder {
    /// What is done, in order, to build the pipeline that replaces rows of a table, when there may
    /// be that many threads. It ends at the first step that fails. Where it is asked again how many
    /// threads there may be, `build_mutators` says what comes after it.
    pub fn build_replace_into(replace: &ReplaceInto, max_threads: u64) -> (r: Vec<
        ReplaceIntoStep,
    >)
        requires
            replace.segments@.len() < usize::MAX,
        ensures
            step_views(r@) == first_steps(*replace) + opening_steps(
                *replace,
                segment_partitions(replace.segments@.len(), max_threads),
            ),
    {
        let segments: usize = replace.segments.len();
        let partitions: usize = if segments <= max_threads as usize {
            segments
        } else {
            max_threads as usize
        };
        let ghost n = partitions as nat;
        let mut steps: Vec<ReplaceIntoStep> = Vec::new();
        assert(step_views(steps@) =~= Seq::empty());
        push_step(&mut steps, ReplaceIntoStep::BuildTable);
        push_step(&mut steps, ReplaceIntoStep::CheckTable);
        push_step(&mut steps, ReplaceIntoStep::ClusterStats(replace.block_thresholds));
        push_step(&mut steps, ReplaceIntoStep::BuildInput);
        push_step(&mut steps, ReplaceIntoStep::CreateSerializers(replace.block_thresholds));
        assert(step_views(steps@) =~= first_steps(*replace));
        if !replace.need_insert {
            if partitions == 0 {
                assert(step_views(steps@) =~= first_steps(*replace) + opening_steps(*replace, n));
                return steps;
            }
            let mut spread: Vec<PipeItem> = Vec::new();
            spread.push(PipeItem::Broadcast(partitions));
            let spread = Pipe::create(1, partitions, spread);
            assert(spread@ =~= spread_pipe(n));
            push_step(&mut steps, ReplaceIntoStep::AddPipe(spread));
            push_step(&mut steps, ReplaceIntoStep::MaxThreads(partitions));
            assert(step_views(steps@) =~= first_steps(*replace) + opening_steps(*replace, n));
            return steps;
        }
        if partitions == 0 {
            let blocks = Pipe::create(2, 2, two_items(PipeItem::SerializeBlock, PipeItem::Dummy));
            let segments = Pipe::create(
                2,
                2,
                two_items(PipeItem::SerializeSegment, PipeItem::Dummy),
            );
            assert(blocks@ =~= block_pipe());
            assert(segments@ =~= segment_pipe());
            push_step(&mut steps, ReplaceIntoStep::AddPipe(blocks));
            push_step(&mut steps, ReplaceIntoStep::AddPipe(segments));
        } else {
            let blocks = Pipe::create(
                2,
                partitions + 1,
                two_items(PipeItem::SerializeBlock, PipeItem::Broadcast(partitions)),
            );
            assert(blocks@ =~= block_and_spread_pipe(n));
            push_step(&mut steps, ReplaceIntoStep::AddPipe(blocks));
            push_step(&mut steps, ReplaceIntoStep::MaxThreads(partitions));
        }
        assert(step_views(steps@) =~= first_steps(*replace) + opening_steps(*replace, n));
        steps
    }

    /// What is done, in order, to merge rows into the segments in that many parts, once it was asked
    /// how many threads there may be. It ends at the first step that fails.
    pub fn build_mutators(replace: &ReplaceInto, partitions: usize, max_threads: u64) -> (r: Vec<
        ReplaceIntoStep,
    >)
        requires
            partitions < usize::MAX,
        ensures
            step_views(r@) == mutator_steps(*replace, partitions as nat, max_threads),
    {
        let ghost n = partitions as nat;
        let mut steps: Vec<ReplaceIntoStep> = Vec::new();
        assert(step_views(steps@) =~= Seq::empty());
        let mutators = Mutators {
            partitions,
            requests: max_threads as usize,
            on_conflicts: replace.on_conflicts.clone(),
            bloom_filter_column_indexes: replace.bloom_filter_column_indexes.clone(),
            segments: replace.segments.clone(),
            block_slots: replace.block_slots,
        };
        push_step(&mut steps, ReplaceIntoStep::CreateMutators(mutators));
        if !replace.need_insert {
            let mut items: Vec<PipeItem> = Vec::with_capacity(partitions);
            push_mutators(&mut items, partitions);
            let merge = Pipe::create(partitions, partitions, items);
            assert(merge@ =~= mutator_pipe(n));
            push_step(&mut steps, ReplaceIntoStep::AddPipe(merge));
        } else {
            let item_size: usize = partitions + 1;
            let mut items: Vec<PipeItem> = Vec::with_capacity(item_size);
            items.push(PipeItem::SerializeSegment);
            assert(items@ =~= seq![PipeItem::SerializeSegment]);
            push_mutators(&mut items, partitions);
            let merge = Pipe::create(item_size, item_size, items);
            assert(merge@ =~= segment_and_mutator_pipe(n));
            push_step(&mut steps, ReplaceIntoStep::AddPipe(merge));
        }
        assert(step_views(steps@) =~= mutator_steps(*replace, n, max_threads));
        steps
    }
}

/// The mutators have one input and one output each.
proof fn lemma_mutators(front: Seq<PipeItem>, n: nat)
    ensures
        total_inputs(front + mutators(n)) == total_inputs(front) + n,
        total_outputs(front + mutators(n)) == total_outputs(front) + n,
    decreases n,
{
    if n == 0 {
        assert(front + mutators(n) =~= front);
    } else {
        lemma_mutators(front, (n - 1) as nat);
        assert((front + mutators(n)).drop_last() =~= front + mutators((n - 1) as nat));
    }
}

/// Every pipe that is added has as many inputs and outputs as its items have together.
pub proof fn law_pipes_fit_their_items(
    replace: ReplaceInto,
    partitions: nat,
    max_threads: u64,
    k: int,
    pipe: PipeView,
)
    requires
        partitions < usize::MAX,
        0 <= k < pipe_steps(replace, partitions, max_threads).len(),
        pipe_steps(replace, partitions, max_threads)[k] == ReplaceIntoView::AddPipe(pipe),
    ensures
        pipe.fits(),
{
    reveal_with_fuel(total_inputs, 3);
    reveal_with_fuel(total_outputs, 3);
    lemma_mutators(Seq::empty(), partitions);
    assert(Seq::<PipeItem>::empty() + mutators(partitions) =~= mutators(partitions));
    lemma_mutators(seq![PipeItem::SerializeSegment], partitions);
    assert(seq![PipeItem::SerializeSegment].drop_last() =~= Seq::empty());
    assert(seq![PipeItem::Broadcast(partitions as usize)].drop_last() =~= Seq::empty());
    assert(seq![PipeItem::SerializeBlock, PipeItem::Dummy].drop_last() =~= seq![
        PipeItem::SerializeBlock,
    ]);
    assert(seq![PipeItem::SerializeSegment, PipeItem::Dummy].drop_last() =~= seq![
        PipeItem::SerializeSegment,
    ]);
    assert(seq![
        PipeItem::SerializeBlock,
        PipeItem::Broadcast(partitions as usize),
    ].drop_last() =~= seq![PipeItem::SerializeBlock]);
    assert(seq![PipeItem::SerializeBlock].drop_last() =~= Seq::empty());
}

/// The pipes among some steps.
pub open spec fn added_pipes(steps: Seq<ReplaceIntoView>) -> Seq<PipeView>
    decreases steps.len(),
{
    if steps.len() == 0 {
        Seq::empty()
    } else {
        match steps.last() {
            ReplaceIntoView::AddPipe(pipe) => added_pipes(steps.drop_last()).push(pipe),
            _ => added_pipes(steps.drop_last()),
        }
    }
}

/// The first pipe takes what the processor that sorts the rows gives, on two outputs where rows
/// are inserted and on one where not, and the second takes as many as the first gives.
pub proof fn law_pipes_connect(replace: ReplaceInto, partitions: nat, max_threads: u64)
    requires
        replace.need_insert || partitions > 0,
    ensures
        added_pipes(pipe_steps(replace, partitions, max_threads)).len() == 2,
        added_pipes(pipe_steps(replace, partitions, max_threads))[0].input_length == (if replace.need_insert {
            PipeItem::ReplaceInto
        } else {
            PipeItem::UnbranchedReplaceInto
        }).outputs(),
        added_pipes(pipe_steps(replace, partitions, max_threads))[0].output_length == added_pipes(
            pipe_steps(replace, partitions, max_threads),
        )[1].input_length,
{
    reveal_with_fuel(added_pipes, 5);
}

/// The mutators that are made are as many as rows were spread over, make as many requests at a time
/// as there may be threads, and all stand in the pipe that is added for them.
pub proof fn law_mutators_are_as_planned(replace: ReplaceInto, partitions: nat, max_threads: u64)
    requires
        0 < partitions < usize::MAX,
    ensures
        opening_steps(replace, partitions).last() == ReplaceIntoView::MaxThreads(
            partitions as usize,
        ),
        mutator_steps(replace, partitions, max_threads)[0] == ReplaceIntoView::CreateMutators(
            planned_mutators(replace, partitions, max_threads),
        ),
        planned_mutators(replace, partitions, max_threads).partitions == partitions,
        planned_mutators(replace, partitions, max_threads).requests == max_threads as usize,
        mutator_steps(replace, partitions, max_threads)[1] matches ReplaceIntoView::AddPipe(pipe)
            && pipe.items.len() == partitions + (if replace.need_insert {
            1int
        } else {
            0int
        }),
{
}

/// No more mutators are made than there are segments, nor than there may be threads, and none are
/// only where there is no segment or no thread.
pub proof fn law_segment_partitions(segments: nat, max_threads: u64)
    ensures
        segment_partitions(segments, max_threads) <= segments,
        segment_partitions(segments, max_threads) <= max_threads as usize,
        segment_partitions(segments, max_threads) == segments || segment_partitions(
            segments,
            max_threads,
        ) == max_threads as usize,
        segment_partitions(segments, max_threads) == 0 <==> segments == 0 || max_threads as usize
            == 0,
{
}

} // verus!
