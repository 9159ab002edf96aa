//! Merging the sorted outputs of a pipeline into one.

use std::sync::Arc;

use vstd::prelude::*;

use crate::exception::{ErrorCode, ErrorKind};
use crate::expression::schema::DataSchema;
use crate::merge::order::SortColumnDescription;
use crate::merge::port::{InputPort, OutputPort};
use crate::merge::processor::MultiSortMergeProcessor;
use crate::pipeline::pipe::{total_inputs, total_outputs, Pipe, PipeItem, Pipeline};

verus! {

/// A port that nothing has happened at.
pub open spec fn fresh_input() -> InputPort {
    InputPort { finished: false, need_data: false, data: None }
}

/// The pipe merges `inputs` sorted inputs, with those parameters, and nothing has come yet.
pub open spec fn merges(
    pipe: Pipe,
    inputs: nat,
    output_schema: Arc<DataSchema>,
    block_size: usize,
    limit: Option<usize>,
    sort_columns_descriptions: Arc<Vec<SortColumnDescription>>,
) -> bool {
    &&& pipe.input_length == inputs
    &&& pipe.output_length == 1
    &&& pipe@.fits()
    &&& pipe.items@.len() == 1
    &&& pipe.items@[0] matches PipeItem::MultiSortMerge(processor) && {
        &&& processor.wf()
        &&& processor.inputs@ == Seq::new(inputs, |i: int| fresh_input())
        &&& processor.output == (OutputPort { finished: false, ready: false, data: None })
        &&& processor.output_schema == output_schema
        &&& processor.block_size == block_size
        &&& processor.limit == limit
        &&& processor.sort_columns_descriptions == sort_columns_descriptions
        &&& processor.is_fresh()
    }
}

/// Merges the outputs of the pipeline into one, where there is more than one.
pub fn try_add_multi_sort_merge(
    pipeline: &mut Pipeline,
    output_schema: Arc<DataSchema>,
    block_size: usize,
    limit: Option<usize>,
    sort_columns_descriptions: Arc<Vec<SortColumnDescription>>,
) -> (r: Result<(), ErrorCode>)
    ensures
        match r {
            Err(e) => {
                &&& old(pipeline).pipes@.len() == 0 || old(pipeline).pipes@.last().output_length
                    == 0
                &&& e.says(ErrorKind::LogicalError, "Cannot resize empty pipe."@)
                &&& *final(pipeline) == *old(pipeline)
            },
            Ok(_) => {
                &&& old(pipeline).pipes@.len() > 0
                &&& old(pipeline).pipes@.last().output_length > 0
                &&& final(pipeline).pipes@.len() > 0
                &&& final(pipeline).pipes@.last().output_length == 1
                &&& if old(pipeline).pipes@.last().output_length == 1 {
                    *final(pipeline) == *old(pipeline)
                } else {
                    &&& final(pipeline).pipes@.drop_last() == old(pipeline).pipes@
                    &&& merges(
                        final(pipeline).pipes@.last(),
                        old(pipeline).pipes@.last().output_length as nat,
                        output_schema,
                        block_size,
                        limit,
                        sort_columns_descriptions,
                    )
                }
            },
        },
{
    let pipes: usize = pipeline.pipes.len();
    if pipes == 0 {
        return Err(ErrorCode::create(ErrorKind::LogicalError, "Cannot resize empty pipe."));
    }
    let input_size: usize = pipeline.pipes[pipes - 1].output_size();
    if input_size == 0 {
        return Err(ErrorCode::create(ErrorKind::LogicalError, "Cannot resize empty pipe."));
    }
    if input_size == 1 {
        return Ok(());
    }
    let mut inputs_port: Vec<InputPort> = Vec::with_capacity(input_size);
    let mut i: usize = 0;
    while i < input_size
        invariant
            i <= input_size,
            inputs_port@ == Seq::new(i as nat, |i: int| fresh_input()),
        decreases input_size - i,
    {
        inputs_port.push(InputPort::create());
        i = i + 1;
        assert(inputs_port@ =~= Seq::new(i as nat, |i: int| fresh_input()));
    }
    let processor = MultiSortMergeProcessor::create(
        inputs_port,
        OutputPort::create(),
        output_schema,
        block_size,
        limit,
        sort_columns_descriptions,
    );
    let mut items: Vec<PipeItem> = Vec::new();
    items.push(PipeItem::MultiSortMerge(processor));
    proof {
        assert(items@.drop_last() =~= Seq::empty());
        assert(total_inputs(items@.drop_last()) == 0);
        assert(total_outputs(items@.drop_last()) == 0);
    }
    let ghost before = pipeline.pipes@;
    pipeline.pipes.push(Pipe::create(input_size, 1, items));
    assert(pipeline.pipes@.drop_last() =~= before);
    Ok(())
}

} // verus!
