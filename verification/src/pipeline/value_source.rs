//! The rows that are written out in a statement, as a source of blocks.

use std::sync::Arc;

use vstd::prelude::*;
use vstd::slice::slice_subrange;

use crate::binder::context::{BindContext, ExprContext, NameResolutionContext};
use crate::exception::{ErrorCode, Range, Span};
use crate::expression::block::{ColumnRef, DataBlock};
use crate::expression::schema::{DataSchema, FieldView};
use crate::expression::value::Cell;
use crate::pipeline::builder::PipelineBuilder;

verus! {

/// Gives the rows that are written out in a statement, as one block.
#[derive(Debug)]
pub struct ValueSource {
    /// The part of the statement that the rows are written out in.
    pub data: String,
    pub name_resolution_ctx: NameResolutionContext,
    pub bind_context: BindContext,
    pub schema: Arc<DataSchema>,
    /// Where in the statement that part begins.
    pub start: usize,
    /// The block was given.
    pub is_finished: bool,
}

/// A column that values of a type are put into.
#[derive(Debug)]
pub struct ColumnBuilder {
    pub data_type: String,
    pub cells: Vec<Cell>,
}

/// What comes next for a source.
#[derive(Debug)]
pub enum GenerateStep<'a> {
    /// There is no block left.
    Finished,
    /// Decode the rows that are written out in the text, into those columns.
    Decode { data: &'a str, columns: Vec<ColumnBuilder> },
}

/// The name of the source.
pub const NAME: &'static str = "ValueSource";

/// A block without rows is not passed on.
pub const SKIP_EMPTY_DATA_BLOCK: bool = true;

/// There is a column for each field, of its type.
pub open spec fn are_typed_by(columns: Seq<ColumnBuilder>, fields: Seq<FieldView>) -> bool {
    &&& columns.len() == fields.len()
    &&& forall|k: int|
        0 <= k < columns.len() ==> (#[trigger] columns[k]).data_type@ == fields[k].data_type
}

/// No value was put into the columns.
pub open spec fn are_empty(columns: Seq<ColumnBuilder>) -> bool {
    forall|k: int| 0 <= k < columns.len() ==> (#[trigger] columns[k]).cells@.len() == 0
}

/// Every column has as many cells as the first.
pub open spec fn equally_long(columns: Seq<ColumnBuilder>) -> bool {
    forall|k: int|
        0 <= k < columns.len() ==> (#[trigger] columns[k]).cells@.len() == columns[0].cells@.len()
}

/// The block has the cells of the columns, under that schema.
pub open spec fn is_built_of(
    block: DataBlock,
    schema: Arc<DataSchema>,
    columns: Seq<ColumnBuilder>,
) -> bool {
    &&& block.wf()
    &&& block.schema == schema
    &&& block.columns@.len() == columns.len()
    &&& forall|k: int|
        0 <= k < columns.len() ==> (#[trigger] block.columns@[k])@ == columns[k].cells@
}

/// The place that far behind.
pub open spec fn shifted(span: Span, by: nat) -> Span {
    match span {
        Some(range) => Some(
            Range { start: (range.start + by) as usize, end: (range.end + by) as usize },
        ),
        None => None,
    }
}

/// The place that far behind can be written down.
pub open spec fn can_shift(span: Span, by: nat) -> bool {
    match span {
        Some(range) => range.start + by <= usize::MAX && range.end + by <= usize::MAX,
        None => true,
    }
}

/// The tokens of an expression list in brackets, behind the bracket that opens it.
pub fn expr_tokens<T>(tokens: &[T]) -> (r: &[T])
    requires
        tokens@.len() > 0,
    ensures
        r@ == tokens@.subrange(1, tokens@.len() as int),
{
    slice_subrange(tokens, 1, tokens.len())
}

impl ValueSource {
    /// A source for the rows in a part of a statement that begins at `start`.
    pub fn new(
        data: String,
        name_resolution_ctx: NameResolutionContext,
        schema: Arc<DataSchema>,
        start: usize,
    ) -> (r: ValueSource)
        ensures
            r == (ValueSource {
                data,
                name_resolution_ctx,
                bind_context: BindContext {
                    expr_context: ExprContext::Unknown,
                    in_grouping: false,
                },
                schema,
                start,
                is_finished: false,
            }),
    {
        let bind_context = BindContext::new();
        ValueSource { data, name_resolution_ctx, bind_context, schema, start, is_finished: false }
    }

    /// The source after its rows were decoded, or could not be.
    pub open spec fn after_decoding(self, decoded: bool) -> ValueSource {
        ValueSource { is_finished: decoded, ..self }
    }

    /// What comes next.
    pub open spec fn is_next(self, step: GenerateStep) -> bool {
        match step {
            GenerateStep::Finished => self.is_finished,
            GenerateStep::Decode { data, columns } => {
                &&& !self.is_finished
                &&& data@ == self.data@
                &&& are_typed_by(columns@, self.schema@)
                &&& are_empty(columns@)
            },
        }
    }

    /// Begins to generate a block.
    pub fn generate<'a>(&'a self) -> (r: GenerateStep<'a>)
        ensures
            self.is_next(r),
    {
        if self.is_finished {
            return GenerateStep::Finished;
        }
        let fields = &self.schema.fields;
        let mut columns: Vec<ColumnBuilder> = Vec::with_capacity(fields.len());
        let mut k: usize = 0;
        while k < fields.len()
            invariant
                k <= fields.len(),
                fields == self.schema.fields,
                columns@.len() == k,
                are_empty(columns@),
                forall|c: int|
                    0 <= c < k ==> (#[trigger] columns@[c]).data_type@
                        == self.schema@[c].data_type,
            decreases fields.len() - k,
        {
            assert(self.schema@[k as int] == fields@[k as int]@);
            columns.push(
                ColumnBuilder { data_type: fields[k].data_type.clone(), cells: Vec::new() },
            );
            k = k + 1;
        }
        GenerateStep::Decode { data: self.data.as_str(), columns }
    }

    /// Generates the block of the columns that the rows were decoded into.
    pub fn generate_decoded(&mut self, decoded: Result<Vec<ColumnBuilder>, ErrorCode>) -> (r:
        Result<Option<DataBlock>, ErrorCode>)
        requires
            !old(self).is_finished,
            decoded matches Ok(columns) ==> are_typed_by(columns@, old(self).schema@)
                && equally_long(columns@),
        ensures
            *final(self) == old(self).after_decoding(decoded is Ok),
            match decoded {
                Ok(columns) => r matches Ok(Some(block)) && is_built_of(
                    block,
                    old(self).schema,
                    columns@,
                ),
                Err(e) => r == Err::<Option<DataBlock>, ErrorCode>(e),
            },
    {
        match decoded {
            Err(e) => Err(e),
            Ok(builders) => {
                let ghost all = builders@;
                let mut columns: Vec<ColumnRef> = Vec::with_capacity(builders.len());
                for builder in it: builders
                    invariant
                        it.seq() == all,
                        columns@.len() == it.index(),
                        forall|k: int|
                            0 <= k < columns@.len() ==> (#[trigger] columns@[k])@ == all[k].cells@,
                {
                    columns.push(Arc::new(builder.cells));
                }
                let block = DataBlock { schema: self.schema.clone(), columns };
                proof {
                    assert forall|k: int| 0 <= k < block.columns@.len() implies (
                    #[trigger] block.columns@[k])@.len() == block.rows() by {
                        assert(all[k].cells@.len() == all[0].cells@.len());
                        assert(block.columns@[0]@ == all[0].cells@);
                    }
                }
                self.is_finished = true;
                Ok(Some(block))
            },
        }
    }

    /// What comes of a row that was parsed and bound as a list of expressions. A place that an
    /// error points at is counted from where the rows begin, and is counted anew from where the
    /// statement begins.
    pub fn parse_fallback(&self, bound: Result<Vec<Cell>, ErrorCode>) -> (r: Result<
        Vec<Cell>,
        ErrorCode,
    >)
        requires
            bound matches Err(e) ==> can_shift(e.span, self.start as nat),
        ensures
            match bound {
                Ok(cells) => r == Ok::<Vec<Cell>, ErrorCode>(cells),
                Err(e) => r == Err::<Vec<Cell>, ErrorCode>(
                    ErrorCode { span: shifted(e.span, self.start as nat), ..e },
                ),
            },
    {
        match bound {
            Ok(cells) => Ok(cells),
            Err(err) => match err.span() {
                Some(range) => Err(
                    err.set_span(
                        Some(
                            Range { start: range.start + self.start, end: range.end + self.start },
                        ),
                    ),
                ),
                None => Err(err),
            },
        }
    }
}

/// A plan to read the rows that are written out in a statement.
#[derive(Debug)]
pub struct ReplaceAsyncSourcer {
    pub schema: Arc<DataSchema>,
    pub start: usize,
    pub value_data: String,
}

/// A source, and how many outputs the pipeline begins with.
#[derive(Debug)]
pub struct Sourcer {
    pub source: ValueSource,
    pub outputs: usize,
}

impl PipelineBuilder {
    /// The source that a pipeline begins with, where the rows are written out in the statement.
    pub fn build_async_sourcer(
        async_sourcer: &ReplaceAsyncSourcer,
        name_resolution_ctx: Result<NameResolutionContext, ErrorCode>,
    ) -> (r: Result<Sourcer, ErrorCode>)
        ensures
            match name_resolution_ctx {
                Ok(ctx) => r == Ok::<Sourcer, ErrorCode>(
                    Sourcer {
                        source: ValueSource {
                            data: async_sourcer.value_data,
                            name_resolution_ctx: ctx,
                            bind_context: BindContext {
                                expr_context: ExprContext::Unknown,
                                in_grouping: false,
                            },
                            schema: async_sourcer.schema,
                            start: async_sourcer.start,
                            is_finished: false,
                        },
                        outputs: 1,
                    },
                ),
                Err(e) => r == Err::<Sourcer, ErrorCode>(e),
            },
    {
        match name_resolution_ctx {
            Ok(ctx) => Ok(
                Sourcer {
                    source: ValueSource::new(
                        async_sourcer.value_data.clone(),
                        ctx,
                        async_sourcer.schema.clone(),
                        async_sourcer.start,
                    ),
                    outputs: 1,
                },
            ),
            Err(e) => Err(e),
        }
    }
}

/// Once a source has given its block there is none left, and while it has not it is as it was.
pub proof fn law_one_block(source: ValueSource, decoded: bool, step: GenerateStep)
    requires
        !source.is_finished,
        source.after_decoding(decoded).is_next(step),
    ensures
        decoded ==> step is Finished,
        !decoded ==> source.after_decoding(decoded) == source && step is Decode,
{
}

/// The block has a column for each field of the source, and the type that the values of a column
/// were decoded by is that of its field.
pub proof fn law_columns_have_the_types_of_their_fields(
    source: ValueSource,
    columns: Seq<ColumnBuilder>,
    block: DataBlock,
    k: int,
)
    requires
        are_typed_by(columns, source.schema@),
        is_built_of(block, source.schema, columns),
        0 <= k < columns.len(),
    ensures
        block.columns@.len() == source.schema@.len(),
        block.columns@[k]@ == columns[k].cells@,
        columns[k].data_type@ == source.schema@[k].data_type,
        columns[k].data_type@ == block.schema@[k].data_type,
{
}

/// A place that was counted from where the rows begin points at the same text of the statement
/// after it was counted anew.
pub proof fn law_span_points_at_the_same_text(
    statement: Seq<u8>,
    start: int,
    end: int,
    range: Range,
)
    requires
        0 <= start <= end <= statement.len() <= usize::MAX,
        range.start <= range.end <= end - start,
    ensures
        can_shift(Some(range), start as nat),
        shifted(Some(range), start as nat) matches Some(moved) && statement.subrange(
            moved.start as int,
            moved.end as int,
        ) == statement.subrange(start, end).subrange(range.start as int, range.end as int),
{
    let moved = shifted(Some(range), start as nat).unwrap();
    assert(statement.subrange(moved.start as int, moved.end as int) =~= statement.subrange(
        start,
        end,
    ).subrange(range.start as int, range.end as int));
}

} // verus!
