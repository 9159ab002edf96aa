//! A processor that merges sorted inputs into one sorted output.

use std::collections::VecDeque;
use std::sync::Arc;

use vstd::prelude::*;

use crate::expression::block::DataBlock;
use crate::expression::schema::DataSchema;
use crate::merge::cursor::{
    comparators_between, comparators_of, create_compare_map, is_square, ColumnComparator,
    CompareMap, Cursor,
};
use crate::merge::heads::{heads_of, Head};
use crate::merge::heap::CursorHeap;
use crate::merge::history::{
    count_of, count_unset, ends_with, entry_order, inputs_sorted, is_merged, is_numbered, joined,
    row_at, row_cells, tail_rows, History, Row,
};
use crate::merge::order::{has_sort_columns, sort_columns, SortColumnDescription};
use crate::merge::port::{InputPort, OutputPort};

verus! {

/// What a processor asks of the scheduler.
#[derive(Clone, Copy, PartialEq, Eq, Debug, Structural)]
pub enum Event {
    /// Call again when an input has data.
    NeedData,
    /// Call again when the output takes data.
    NeedConsume,
    /// Call `process`.
    Sync,
    /// Do not call again.
    Finished,
}

/// What a merge does next.
#[derive(Debug)]
pub enum ProcessorState {
    /// Take data from the inputs.
    Consume,
    /// Keep blocks that have come from the inputs, and merge.
    Preserve(Vec<(usize, DataBlock)>),
    /// Build a block of the rows that were merged.
    Output,
    /// Send a block that was built.
    Generated(DataBlock),
}

/// Merges sorted inputs into one sorted output.
pub struct MultiSortMergeProcessor {
    /// The inputs, each sorted.
    pub inputs: Vec<InputPort>,
    pub output: OutputPort,
    pub output_schema: Arc<DataSchema>,
    /// How many rows a block of the output has at least, unless the inputs end or the limit is
    /// reached.
    pub block_size: usize,
    /// How many rows may still be sent.
    pub limit: Option<usize>,
    pub sort_columns_descriptions: Arc<Vec<SortColumnDescription>>,
    /// For each input, the blocks of which rows wait or were merged and not sent.
    pub blocks: Vec<VecDeque<DataBlock>>,
    /// Compares blocks from different inputs.
    pub compare_map: CompareMap,
    /// For each input, that no row of it waits.
    pub cursor_finished: Vec<bool>,
    /// The rows that the next block of the output is built of: input, block and row.
    pub in_progess_rows: Vec<(usize, usize, usize)>,
    /// Yields the cursors of the inputs in increasing order.
    pub heap: CursorHeap,
    /// For each input, that no more data comes.
    pub input_finished: Vec<bool>,
    pub state: ProcessorState,
    /// The query was killed or the server shuts down.
    pub aborting: bool,
    /// What has come in and what has gone out.
    pub history: Ghost<History>,
}

/// The text of the error that a query was aborted.
pub const ABORTED: &'static str =
    "Aborted query, because the server is shutting down or the query was killed.";

/// For each input, that no row of it waits and no more comes.
pub open spec fn done_flags(input_finished: Seq<bool>, cursor_finished: Seq<bool>) -> Seq<bool> {
    Seq::new(input_finished.len(), |i: int| input_finished[i] && cursor_finished[i])
}

/// How many inputs have a row that waits, or may still bring one.
pub open spec fn active_inputs(input_finished: Seq<bool>, cursor_finished: Seq<bool>) -> nat {
    count_unset(done_flags(input_finished, cursor_finished))
}

/// The port brings data that the merge takes.
pub open spec fn delivers(port: InputPort, cursor_finished: bool) -> bool {
    !port.finished && cursor_finished && port.data is Some
}

/// The port brings an error.
pub open spec fn fails(port: InputPort, cursor_finished: bool) -> bool {
    delivers(port, cursor_finished) && port.data.unwrap() is Err
}

/// The port once it was asked for data, and what it brings was taken if no row of it waits.
pub open spec fn polled_port(port: InputPort, cursor_finished: bool) -> InputPort {
    if port.finished {
        port
    } else if cursor_finished {
        InputPort { finished: false, need_data: true, data: None }
    } else {
        InputPort { need_data: true, ..port }
    }
}

/// The ports once the first `k` were polled.
pub open spec fn polled(inputs: Seq<InputPort>, cursor_finished: Seq<bool>, k: int) -> Seq<
    InputPort,
> {
    Seq::new(
        inputs.len(),
        |i: int|
            if i < k {
                polled_port(inputs[i], cursor_finished[i])
            } else {
                inputs[i]
            },
    )
}

/// Which inputs are known to be finished once the first `k` were polled.
pub open spec fn finished_flags(
    input_finished: Seq<bool>,
    inputs: Seq<InputPort>,
    k: int,
) -> Seq<bool> {
    Seq::new(
        input_finished.len(),
        |i: int| input_finished[i] || (i < k && inputs[i].finished),
    )
}

/// The blocks that the first `k` ports bring, each with its input.
pub open spec fn deliveries(
    inputs: Seq<InputPort>,
    cursor_finished: Seq<bool>,
    k: int,
) -> Seq<(usize, DataBlock)>
    decreases k,
{
    if k <= 0 {
        Seq::empty()
    } else if delivers(inputs[k - 1], cursor_finished[k - 1]) {
        deliveries(inputs, cursor_finished, k - 1).push(
            ((k - 1) as usize, inputs[k - 1].data.unwrap()->Ok_0),
        )
    } else {
        deliveries(inputs, cursor_finished, k - 1)
    }
}

/// `k` is the first port that brings an error.
pub open spec fn is_first_failing(
    inputs: Seq<InputPort>,
    cursor_finished: Seq<bool>,
    k: int,
) -> bool {
    &&& 0 <= k < inputs.len()
    &&& fails(inputs[k], cursor_finished[k])
    &&& forall|i: int| 0 <= i < k ==> !fails(#[trigger] inputs[i], cursor_finished[i])
}

/// No port brings an error.
pub open spec fn none_fails(inputs: Seq<InputPort>, cursor_finished: Seq<bool>) -> bool {
    forall|i: int|
        0 <= i < inputs.len() ==> !fails(#[trigger] inputs[i], cursor_finished[i])
}

/// The ports once they were told that no more data is wanted.
pub open spec fn finished_ports(inputs: Seq<InputPort>) -> Seq<InputPort> {
    inputs.map_values(|p: InputPort| InputPort { finished: true, ..p })
}

impl MultiSortMergeProcessor {
    /// How many inputs there are.
    pub open spec fn n(self) -> int {
        self.inputs@.len() as int
    }

    /// The columns that rows are sorted by.
    pub open spec fn sort_by(self) -> Seq<SortColumnDescription> {
        self.sort_columns_descriptions@
    }

    /// How many columns the output has.
    pub open spec fn width(self) -> nat {
        self.output_schema.fields@.len()
    }

    /// The blocks of an input that are kept.
    pub open spec fn blocks_of(self, i: int) -> Seq<DataBlock> {
        self.blocks@[i]@
    }

    /// The rows that wait.
    pub open spec fn heads(self) -> Seq<Head> {
        heads_of(self.heap.cursors@)
    }

    /// How many inputs have a row that waits, or may still bring one.
    pub open spec fn active(self) -> nat {
        active_inputs(self.input_finished@, self.cursor_finished@)
    }

    /// The block is well formed and has the columns of the output.
    pub open spec fn fits(self, block: DataBlock) -> bool {
        block.wf() && block.columns@.len() >= self.width()
    }

    /// There is one of everything for each input.
    pub open spec fn shape(self) -> bool {
        &&& self.blocks@.len() == self.n()
        &&& self.cursor_finished@.len() == self.n()
        &&& self.input_finished@.len() == self.n()
        &&& self.history@.arrived.len() == self.n()
        &&& is_square(self.compare_map, self.n())
    }

    /// The blocks that are kept hold the last rows of their input.
    pub open spec fn blocks_ok(self) -> bool {
        &&& forall|i: int, b: int|
            0 <= i < self.n() && 0 <= b < self.blocks_of(i).len() ==> self.fits(
                #[trigger] self.blocks@[i]@[b],
            )
        &&& forall|i: int|
            0 <= i < self.n() ==> #[trigger] ends_with(
                self.history@.arrived[i],
                self.blocks_of(i),
                self.sort_by(),
                self.width(),
            )
    }

    /// A cursor that waits is in the last block of its input.
    pub open spec fn cursor_ok(self, c: Cursor) -> bool {
        &&& c.input_index < self.n()
        &&& !self.cursor_finished@[c.input_index as int]
        &&& self.blocks_of(c.input_index as int).len() > 0
        &&& c.is_in(
            c.input_index as int,
            self.blocks_of(c.input_index as int).last(),
            self.sort_by(),
        )
    }

    /// One cursor waits for each input that has a row that waits, and they are in order.
    pub open spec fn heap_ok(self) -> bool {
        &&& self.heap.wf(self.sort_by())
        &&& self.heap.cursors@.len() == count_unset(self.cursor_finished@)
        &&& forall|p: int|
            #![trigger self.heap.cursors@[p]]
            0 <= p < self.heap.cursors@.len() ==> self.cursor_ok(self.heap.cursors@[p])
    }

    /// The last blocks of two inputs can be compared.
    pub open spec fn comparable(self, i: int, j: int) -> bool {
        let left = self.blocks_of(i).last();
        let right = self.blocks_of(j).last();
        &&& has_sort_columns(left, self.sort_by())
        &&& has_sort_columns(right, self.sort_by())
        &&& comparators_between(
            comparators_of(self.compare_map, i, j),
            sort_columns(left, self.sort_by()),
            sort_columns(right, self.sort_by()),
        )
    }

    /// The last blocks of every two inputs can be compared.
    pub open spec fn map_ok(self) -> bool {
        forall|i: int, j: int|
            0 <= i < self.n() && 0 <= j < self.n() && i != j && self.blocks_of(i).len() > 0
                && self.blocks_of(j).len() > 0 ==> #[trigger] self.comparable(i, j)
    }

    /// Where in the history a row of the next output block stands.
    pub open spec fn entry_of(self, k: int) -> (int, int) {
        self.history@.emitted[self.history@.emitted.len() - self.in_progess_rows@.len() + k]
    }

    /// A row of the next output block is in a block that is kept, and is the row of the history.
    pub open spec fn row_ok(self, k: int) -> bool {
        let (i, b, r) = self.in_progess_rows@[k];
        &&& i < self.n()
        &&& b < self.blocks_of(i as int).len()
        &&& r < self.blocks_of(i as int)[b as int].rows()
        &&& self.entry_of(k) == (
            i as int,
            self.history@.arrived[i as int].len() - tail_rows(self.blocks_of(i as int), b as int)
                + r,
        )
    }

    /// The rows of the next output block are the last ones that were merged.
    pub open spec fn rows_ok(self) -> bool {
        &&& self.in_progess_rows@.len() <= self.history@.emitted.len()
        &&& forall|k: int|
            0 <= k < self.in_progess_rows@.len() ==> #[trigger] self.row_ok(k)
    }

    /// How many rows of an input were merged.
    pub open spec fn taken(self, i: int) -> nat {
        count_of(self.history@.emitted, i)
    }

    /// Every row of an input that was not merged is in the block that its cursor is in. `pending`
    /// are the inputs of which a block was kept and no cursor waits yet.
    pub open spec fn history_ok(self, pending: Set<int>) -> bool {
        let emitted = self.history@.emitted;
        let arrived = self.history@.arrived;
        &&& is_numbered(emitted, self.n())
        &&& forall|k: int|
            #![trigger emitted[k]]
            0 <= k < emitted.len() ==> emitted[k].1 < arrived[emitted[k].0].len()
        &&& forall|i: int|
            0 <= i < self.n() && self.cursor_finished@[i] && !pending.contains(i)
                ==> #[trigger] self.taken(i) == arrived[i].len()
        &&& forall|p: int|
            #![trigger self.heap.cursors@[p]]
            0 <= p < self.heap.cursors@.len() ==> self.all_but_rest_taken(self.heap.cursors@[p])
        &&& forall|i: int| #[trigger] pending.contains(i) ==> self.is_pending(i)
        &&& emitted.len() > 0 ==> forall|i: int|
            0 <= i < self.n() && #[trigger] self.cursor_finished@[i] && !pending.contains(i)
                ==> self.input_finished@[i] || emitted.last().0 == i
        &&& inputs_sorted(arrived, self.sort_by()) ==> self.sorted_so_far()
    }

    /// The rows of the input that were not merged are those from the cursor on.
    pub open spec fn all_but_rest_taken(self, c: Cursor) -> bool {
        self.taken(c.input_index as int) == self.history@.arrived[c.input_index as int].len() - (
        c.num_rows - c.row_index)
    }

    /// A block of the input was kept, no row of it was merged, and no cursor waits for it.
    pub open spec fn is_pending(self, i: int) -> bool {
        &&& 0 <= i < self.n()
        &&& self.cursor_finished@[i]
        &&& !self.input_finished@[i]
        &&& self.blocks_of(i).len() > 0
        &&& self.taken(i) == self.history@.arrived[i].len() - self.blocks_of(i).last().rows()
        &&& self.history@.emitted.len() > 0 ==> self.history@.emitted.last().0 == i
    }

    /// The rows were merged in order, and none that waits comes before one of them.
    pub open spec fn sorted_so_far(self) -> bool {
        let emitted = self.history@.emitted;
        let arrived = self.history@.arrived;
        &&& is_merged(arrived, emitted, self.sort_by())
        &&& emitted.len() > 0 ==> forall|p: int|
            #![trigger self.heap.cursors@[p]]
            0 <= p < self.heap.cursors@.len() ==> self.not_before_last(self.heap.cursors@[p])
    }

    /// The row that the cursor is at does not come before the last one that was merged.
    pub open spec fn not_before_last(self, c: Cursor) -> bool {
        entry_order(
            self.history@.arrived,
            self.history@.emitted.last(),
            (c.input_index as int, self.taken(c.input_index as int) as int),
            self.sort_by(),
        ) <= 0
    }

    /// What holds of the blocks, cursors and rows, whatever is to be done next.
    pub open spec fn sound_except(self, pending: Set<int>) -> bool {
        &&& self.shape()
        &&& self.blocks_ok()
        &&& self.heap_ok()
        &&& self.map_ok()
        &&& self.rows_ok()
        &&& self.history_ok(pending)
    }

    /// What holds of the blocks, cursors and rows between two calls.
    pub open spec fn sound(self) -> bool {
        self.sound_except(Set::empty())
    }

    /// An input that is known to be finished stays so, and a block that waits at a port fits.
    pub open spec fn ports_ok(self) -> bool {
        forall|i: int|
            0 <= i < self.n() ==> {
                &&& self.input_finished@[i] ==> (#[trigger] self.inputs@[i]).finished
                &&& self.inputs@[i].data matches Some(Ok(block)) ==> self.fits(block)
            }
    }

    /// Blocks that have just come are of different inputs, of which no row waits.
    pub open spec fn incoming_ok(self, incoming: Seq<(usize, DataBlock)>) -> bool {
        &&& forall|s: int|
            #![trigger incoming[s]]
            0 <= s < incoming.len() ==> {
                &&& incoming[s].0 < self.n()
                &&& self.cursor_finished@[incoming[s].0 as int]
                &&& !self.input_finished@[incoming[s].0 as int]
                &&& self.fits(incoming[s].1)
            }
        &&& forall|s: int, t: int|
            0 <= s < t < incoming.len() ==> (#[trigger] incoming[s]).0 != (
            #[trigger] incoming[t]).0
    }

    /// There is something to do in the state.
    pub open spec fn state_ok(self) -> bool {
        match self.state {
            ProcessorState::Consume => true,
            ProcessorState::Preserve(incoming) => self.incoming_ok(incoming@) && (incoming@.len()
                > 0 || self.heap.cursors@.len() > 0),
            ProcessorState::Output => self.in_progess_rows@.len() > 0,
            ProcessorState::Generated(block) => self.in_progess_rows@.len() == 0
                && self.can_be_sent(block),
        }
    }

    /// The block has the schema of the output and, where that has columns, rows.
    pub open spec fn can_be_sent(self, block: DataBlock) -> bool {
        &&& block.wf()
        &&& block.schema == self.output_schema
        &&& block.columns@.len() == self.width()
        &&& self.width() > 0 ==> block.rows() > 0
    }

    /// Every block that was sent has the schema of the output and, where that has columns, rows. The
    /// rows that were sent are those of the blocks.
    pub open spec fn sent_ok(self) -> bool {
        &&& forall|k: int|
            0 <= k < self.history@.sent.len() ==> self.can_be_sent(
                #[trigger] self.history@.sent[k],
            )
        &&& self.history@.pushed == joined(self.history@.sent, self.width())
    }

    /// Nothing has come yet and nothing was asked for, and the merge goes on when data comes.
    pub open spec fn is_fresh(self) -> bool {
        &&& self.blocks@.len() == self.n()
        &&& forall|i: int|
            0 <= i < self.n() ==> #[trigger] self.blocks_of(i) == Seq::<DataBlock>::empty()
        &&& is_square(self.compare_map, self.n())
        &&& forall|i: int, j: int|
            0 <= i < self.n() && 0 <= j < self.n() ==> #[trigger] comparators_of(
                self.compare_map,
                i,
                j,
            ) == Seq::<ColumnComparator>::empty()
        &&& self.cursor_finished@ == Seq::new(self.inputs@.len(), |i: int| true)
        &&& self.input_finished@ == Seq::new(self.inputs@.len(), |i: int| false)
        &&& self.in_progess_rows@ == Seq::<(usize, usize, usize)>::empty()
        &&& self.heap.cursors@ == Seq::<Cursor>::empty()
        &&& self.state is Consume
        &&& !self.aborting
        &&& self.history@.arrived == Seq::new(
            self.inputs@.len(),
            |i: int| Seq::<Row>::empty(),
        )
        &&& self.history@.emitted == Seq::<(int, int)>::empty()
        &&& self.history@.pushed == Seq::<Seq<Option<Seq<int>>>>::empty()
        &&& self.history@.sent == Seq::<DataBlock>::empty()
        &&& self.history@.allowed == match self.limit {
            Some(limit) => Some(limit as nat),
            None => None,
        }
    }

    /// How many rows are in a block that was built and not sent.
    pub open spec fn built_rows(self) -> nat {
        match self.state {
            ProcessorState::Generated(block) => block.rows(),
            _ => 0,
        }
    }

    /// The block holds the merged rows that come after those that were sent.
    pub open spec fn holds_next_rows(self, block: DataBlock) -> bool {
        &&& block.wf()
        &&& block.columns@.len() == self.width()
        &&& self.history@.pushed.len() + block.rows() <= self.history@.emitted.len()
        &&& forall|k: int|
            0 <= k < block.rows() ==> #[trigger] row_cells(block, self.width(), k) == row_at(
                self.history@.arrived,
                self.history@.emitted[self.history@.pushed.len() + k],
            ).cells
    }

    /// Every merged row was sent, is in a block that was built, or is in progress, and no more
    /// rows are on their way than may be sent.
    pub open spec fn accounted(self) -> bool {
        let h = self.history@;
        &&& h.emitted.len() == h.pushed.len() + self.built_rows() + self.in_progess_rows@.len()
        &&& match (self.limit, h.allowed) {
            (None, None) => true,
            (Some(limit), Some(allowed)) => {
                &&& limit + h.pushed.len() == allowed
                &&& self.built_rows() + self.in_progess_rows@.len() <= limit
                &&& self.in_progess_rows@.len() == limit ==> self.state is Output || (limit == 0
                    && !(self.state is Preserve))
            },
            _ => false,
        }
        &&& forall|k: int|
            0 <= k < h.pushed.len() ==> #[trigger] h.pushed[k] == row_at(
                h.arrived,
                h.emitted[k],
            ).cells
        &&& self.state matches ProcessorState::Generated(block) ==> self.holds_next_rows(block)
    }

    /// What holds between two calls. Rows of an output without columns cannot be counted in the
    /// blocks that are sent.
    pub open spec fn wf(self) -> bool {
        &&& self.sound()
        &&& self.ports_ok()
        &&& self.state_ok()
        &&& self.sent_ok()
        &&& self.width() > 0 ==> self.accounted()
    }

    /// A merge of those inputs, of which nothing has come yet.
    pub fn create(
        inputs: Vec<InputPort>,
        output: OutputPort,
        output_schema: Arc<DataSchema>,
        block_size: usize,
        limit: Option<usize>,
        sort_columns_descriptions: Arc<Vec<SortColumnDescription>>,
    ) -> (r: MultiSortMergeProcessor)
        ensures
            r.inputs == inputs,
            r.output == output,
            r.output_schema == output_schema,
            r.block_size == block_size,
            r.limit == limit,
            r.sort_columns_descriptions == sort_columns_descriptions,
            r.is_fresh(),
            r.active() == inputs@.len(),
            r.sound(),
            r.state_ok(),
            r.sent_ok(),
            r.accounted(),
    {
        let input_size: usize = inputs.len();
        let mut blocks: Vec<VecDeque<DataBlock>> = Vec::with_capacity(input_size);
        let mut cursor_finished: Vec<bool> = Vec::with_capacity(input_size);
        let mut input_finished: Vec<bool> = Vec::with_capacity(input_size);
        let mut i: usize = 0;
        while i < input_size
            invariant
                i <= input_size,
                blocks@.len() == i,
                cursor_finished@ == Seq::new(i as nat, |i: int| true),
                input_finished@ == Seq::new(i as nat, |i: int| false),
                forall|j: int| 0 <= j < i ==> (#[trigger] blocks@[j])@ == Seq::<
                    DataBlock,
                >::empty(),
            decreases input_size - i,
        {
            blocks.push(VecDeque::with_capacity(2));
            cursor_finished.push(true);
            input_finished.push(false);
            i = i + 1;
        }
        let ghost history = History {
            arrived: Seq::new(input_size as nat, |i: int| Seq::<Row>::empty()),
            emitted: Seq::empty(),
            pushed: Seq::empty(),
            sent: Seq::empty(),
            allowed: match limit {
                Some(limit) => Some(limit as nat),
                None => None,
            },
        };
        let r = MultiSortMergeProcessor {
            inputs,
            output,
            output_schema,
            block_size,
            limit,
            sort_columns_descriptions,
            blocks,
            compare_map: create_compare_map(input_size),
            cursor_finished,
            in_progess_rows: Vec::new(),
            heap: CursorHeap::new(),
            input_finished,
            state: ProcessorState::Consume,
            aborting: false,
            history: Ghost(history),
        };
        proof {
            lemma_all_set(r.cursor_finished@);
            lemma_none_set(done_flags(r.input_finished@, r.cursor_finished@));
        }
        r
    }

    /// The name of the processor.
    pub fn name(&self) -> (r: String)
        ensures
            r@ == "MultiSortMerge"@,
    {
        "MultiSortMerge".to_owned()
    }

    /// Asks the merge to stop.
    pub fn interrupt(&mut self)
        ensures
            *final(self) == (MultiSortMergeProcessor { aborting: true, ..*old(self) }),
    {
        self.aborting = true;
    }

    /// How many inputs have a row that waits, or may still bring one.
    pub fn nums_active_inputs(&self) -> (r: usize)
        requires
            self.input_finished@.len() == self.cursor_finished@.len(),
        ensures
            r == self.active(),
    {
        let mut count: usize = 0;
        let mut i: usize = 0;
        let ghost flags = done_flags(self.input_finished@, self.cursor_finished@);
        while i < self.input_finished.len()
            invariant
                i <= self.input_finished@.len(),
                count <= i,
                self.input_finished@.len() == self.cursor_finished@.len(),
                flags == done_flags(self.input_finished@, self.cursor_finished@),
                count == count_unset(flags.take(i as int)),
            decreases self.input_finished.len() - i,
        {
            assert(flags.take(i + 1).drop_last() =~= flags.take(i as int));
            if !self.input_finished[i] || !self.cursor_finished[i] {
                count = count + 1;
            }
            i = i + 1;
        }
        assert(flags.take(i as int) =~= flags);
        count
    }
}

/// What holds of the blocks, cursors and rows does not depend on the ports, the state and the
/// limit, nor on what was sent, and an input may become finished.
pub proof fn lemma_frame(
    before: MultiSortMergeProcessor,
    after: MultiSortMergeProcessor,
)
    requires
        before.sound(),
        after.inputs@.len() == before.inputs@.len(),
        after.output_schema == before.output_schema,
        after.sort_columns_descriptions == before.sort_columns_descriptions,
        after.blocks == before.blocks,
        after.compare_map == before.compare_map,
        after.cursor_finished == before.cursor_finished,
        after.in_progess_rows == before.in_progess_rows,
        after.heap.cursors@ == before.heap.cursors@,
        after.history@.arrived == before.history@.arrived,
        after.history@.emitted == before.history@.emitted,
        after.input_finished@.len() == before.input_finished@.len(),
        forall|i: int|
            0 <= i < before.n() && #[trigger] before.input_finished@[i]
                ==> after.input_finished@[i],
    ensures
        after.sound(),
{
    assert forall|i: int, j: int|
        0 <= i < after.n() && 0 <= j < after.n() && i != j && after.blocks_of(i).len() > 0
            && after.blocks_of(j).len() > 0 implies #[trigger] after.comparable(i, j) by {
        assert(before.comparable(i, j));
    }
    assert forall|k: int| 0 <= k < after.in_progess_rows@.len() implies #[trigger] after.row_ok(
        k,
    ) by {
        assert(before.row_ok(k));
    }
    assert forall|i: int|
        0 <= i < after.n() && after.cursor_finished@[i] implies #[trigger] after.taken(i)
        == after.history@.arrived[i].len() by {
        assert(before.taken(i) == before.history@.arrived[i].len());
    }
    assert forall|i: int|
        0 <= i < after.n() implies #[trigger] ends_with(
        after.history@.arrived[i],
        after.blocks_of(i),
        after.sort_by(),
        after.width(),
    ) by {
        assert(before.blocks_of(i) == after.blocks_of(i));
    }
    assert forall|i: int, b: int|
        0 <= i < after.n() && 0 <= b < after.blocks_of(i).len() implies after.fits(
        #[trigger] after.blocks@[i]@[b],
    ) by {
        assert(before.fits(before.blocks@[i]@[b]));
    }
    if inputs_sorted(after.history@.arrived, after.sort_by()) {
        assert(before.sorted_so_far());
        assert(after.sorted_so_far());
    }
}

/// Where no flag is set, all are unset.
proof fn lemma_none_set(flags: Seq<bool>)
    requires
        forall|i: int| 0 <= i < flags.len() ==> !#[trigger] flags[i],
    ensures
        count_unset(flags) == flags.len(),
    decreases flags.len(),
{
    if flags.len() > 0 {
        assert(flags.last() == flags[flags.len() - 1]);
        assert forall|i: int| 0 <= i < flags.len() - 1 implies !#[trigger] flags.drop_last()[i] by {
            assert(!flags[i]);
        }
        lemma_none_set(flags.drop_last());
    }
}

/// Where every flag is set, none is unset.
proof fn lemma_all_set(flags: Seq<bool>)
    requires
        forall|i: int| 0 <= i < flags.len() ==> #[trigger] flags[i],
    ensures
        count_unset(flags) == 0,
    decreases flags.len(),
{
    if flags.len() > 0 {
        assert(flags.last() == flags[flags.len() - 1]);
        assert forall|i: int| 0 <= i < flags.len() - 1 implies #[trigger] flags.drop_last()[i] by {
            assert(flags[i]);
        }
        lemma_all_set(flags.drop_last());
    }
}

} // verus!
