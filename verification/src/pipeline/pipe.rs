//! Pipelines: pipes one after the other, each made of items side by side.

use vstd::prelude::*;

use crate::merge::processor::MultiSortMergeProcessor;

verus! {

/// An item of a pipe.
pub enum PipeItem {
    /// Writes blocks of rows.
    SerializeBlock,
    /// Writes segments of blocks.
    SerializeSegment,
    /// Passes on what comes.
    Dummy,
    /// Passes on what comes to each of some outputs.
    Broadcast(usize),
    /// Merges rows into the part of the segments of that number.
    MergeIntoMutator(usize),
    /// Sorts rows into those to insert and those to merge.
    ReplaceInto,
    /// Lets through the rows to merge.
    UnbranchedReplaceInto,
    /// Merges sorted inputs.
    MultiSortMerge(MultiSortMergeProcessor),
}

impl PipeItem {
    /// How many inputs the item has.
    pub open spec fn inputs(self) -> nat {
        match self {
            PipeItem::MultiSortMerge(processor) => processor.inputs@.len(),
            _ => 1,
        }
    }

    /// How many outputs the item has.
    pub open spec fn outputs(self) -> nat {
        match self {
            PipeItem::Broadcast(outputs) => outputs as nat,
            PipeItem::ReplaceInto => 2,
            _ => 1,
        }
    }
}

/// How many inputs some items have together.
pub open spec fn total_inputs(items: Seq<PipeItem>) -> nat
    decreases items.len(),
{
    if items.len() == 0 {
        0
    } else {
        total_inputs(items.drop_last()) + items.last().inputs()
    }
}

/// How many outputs some items have together.
pub open spec fn total_outputs(items: Seq<PipeItem>) -> nat
    decreases items.len(),
{
    if items.len() == 0 {
        0
    } else {
        total_outputs(items.drop_last()) + items.last().outputs()
    }
}

/// A pipe, with the number of its inputs and outputs.
pub struct Pipe {
    pub input_length: usize,
    pub output_length: usize,
    pub items: Vec<PipeItem>,
}

/// A `Pipe` with its items as a sequence.
#[verifier::ext_equal]
pub struct PipeView {
    pub input_length: nat,
    pub output_length: nat,
    pub items: Seq<PipeItem>,
}

impl View for Pipe {
    type V = PipeView;

    open spec fn view(&self) -> PipeView {
        PipeView {
            input_length: self.input_length as nat,
            output_length: self.output_length as nat,
            items: self.items@,
        }
    }
}

impl PipeView {
    /// The pipe has as many inputs and outputs as its items have together.
    pub open spec fn fits(self) -> bool {
        &&& total_inputs(self.items) == self.input_length
        &&& total_outputs(self.items) == self.output_length
    }
}

impl Pipe {
    /// A pipe of those items.
    pub fn create(input_length: usize, output_length: usize, items: Vec<PipeItem>) -> (r: Pipe)
        ensures
            r == (Pipe { input_length, output_length, items }),
    {
        Pipe { input_length, output_length, items }
    }

    /// How many outputs the pipe has.
    pub fn output_size(&self) -> (r: usize)
        ensures
            r == self.output_length,
    {
        self.output_length
    }
}

/// Pipes one after the other.
pub struct Pipeline {
    pub pipes: Vec<Pipe>,
}

} // verus!
