//! Laws on the rows that are written out in a statement.

use std::sync::Arc;

use vstd::prelude::*;

use crate::binder::context::{BindContext, NameResolutionContext};
use crate::exception::ErrorCode;
use crate::expression::block::DataBlock;
use crate::expression::schema::DataSchema;
use crate::expression::value::Cell;
use crate::pipeline::builder::PipelineBuilder;
use crate::pipeline::value_source::{
    expr_tokens, ColumnBuilder, GenerateStep, ReplaceAsyncSourcer, Sourcer, ValueSource, NAME,
    SKIP_EMPTY_DATA_BLOCK,
};

verus! {

/// There is an empty column for each field, of the type of the field.
pub open spec fn is_empty_for(columns: Seq<ColumnBuilder>, schema: Arc<DataSchema>) -> bool {
    &&& columns.len() == schema.fields@.len()
    &&& forall|k: int|
        0 <= k < columns.len() ==> (#[trigger] columns[k]).data_type@
            == schema.fields@[k].data_type@ && columns[k].cells@.len() == 0
}

/// A new source hands the text that it was made of to be decoded, all of it, into an empty column
/// for each field, wherever in the statement the text begins.
pub proof fn law_new_source_hands_out_its_text(
    data: String,
    name_resolution_ctx: NameResolutionContext,
    schema: Arc<DataSchema>,
    start: usize,
    source: ValueSource,
    r: GenerateStep,
)
    requires
        call_ensures(ValueSource::new, (data, name_resolution_ctx, schema, start), source),
        call_ensures(ValueSource::generate, (&source,), r),
    ensures
        r matches GenerateStep::Decode { data: text, columns } && text@ == data@ && is_empty_for(
            columns@,
            schema,
        ),
{
    lemma_views_of_types(schema);
}

proof fn lemma_views_of_types(schema: Arc<DataSchema>)
    ensures
        schema@.len() == schema.fields@.len(),
        forall|k: int|
            0 <= k < schema.fields@.len() ==> (#[trigger] schema@[k]).data_type
                == schema.fields@[k].data_type@,
{
}

/// A source that has not given its block hands its text out, and one that has given it hands out
/// nothing.
pub proof fn law_text_is_handed_out_until_the_block_is_given(source: ValueSource, r: GenerateStep)
    requires
        call_ensures(ValueSource::generate, (&source,), r),
    ensures
        source.is_finished ==> r is Finished,
        !source.is_finished ==> (r matches GenerateStep::Decode { data, columns } && data@
            == source.data@ && is_empty_for(columns@, source.schema)),
{
    lemma_views_of_types(source.schema);
}

/// Where the text begins in the statement makes no difference to what is decoded.
pub proof fn law_start_does_not_change_the_text(
    a: ValueSource,
    b: ValueSource,
    text_a: &str,
    columns_a: Vec<ColumnBuilder>,
    r: GenerateStep,
)
    requires
        a.data@ == b.data@,
        a.schema == b.schema,
        a.is_finished == b.is_finished,
        call_ensures(
            ValueSource::generate,
            (&a,),
            GenerateStep::Decode { data: text_a, columns: columns_a },
        ),
        call_ensures(ValueSource::generate, (&b,), r),
    ensures
        r matches GenerateStep::Decode { data, columns } && data@ == text_a@ && columns@.len()
            == columns_a@.len(),
{
}

/// A new source keeps what it is made of, knows nothing yet, and has not given its block.
pub proof fn law_new_source_keeps_what_it_is_given(
    data: String,
    name_resolution_ctx: NameResolutionContext,
    schema: Arc<DataSchema>,
    start: usize,
    r: ValueSource,
    fresh: BindContext,
)
    requires
        call_ensures(ValueSource::new, (data, name_resolution_ctx, schema, start), r),
        call_ensures(BindContext::new, (), fresh),
    ensures
        r.data@ == data@,
        r.name_resolution_ctx == name_resolution_ctx,
        r.schema == schema,
        r.start == start,
        r.bind_context == fresh,
        !fresh.in_grouping,
        !r.is_finished,
{
}

/// The columns that rows were decoded into are those of the block, cell by cell, under the schema
/// of the source, and then the block was given. Where rows could not be decoded the error is handed
/// on and the source is as it was.
pub proof fn law_block_has_the_decoded_cells(
    source: &mut ValueSource,
    decoded: Result<Vec<ColumnBuilder>, ErrorCode>,
    r: Result<Option<DataBlock>, ErrorCode>,
)
    requires
        call_ensures(ValueSource::generate_decoded, (source, decoded), r),
        !old(source).is_finished,
    ensures
        decoded matches Ok(columns) ==> {
            &&& r matches Ok(Some(block)) && block.schema == old(source).schema
                && block.columns@.len() == columns@.len() && forall|k: int|
                0 <= k < columns@.len() ==> (#[trigger] block.columns@[k])@ == columns@[k].cells@
            &&& final(source).is_finished
        },
        decoded matches Err(e) ==> r == Err::<Option<DataBlock>, ErrorCode>(e) && *final(source)
            == *old(source),
        final(source).data == old(source).data,
        final(source).schema == old(source).schema,
        final(source).start == old(source).start,
        final(source).name_resolution_ctx == old(source).name_resolution_ctx,
        final(source).bind_context == old(source).bind_context,
{
}

/// An error that points into the text points as far behind in the statement as the text begins, and
/// says the same. What was bound is handed on.
pub proof fn law_places_are_counted_from_the_statement(
    source: ValueSource,
    bound: Result<Vec<Cell>, ErrorCode>,
    r: Result<Vec<Cell>, ErrorCode>,
)
    requires
        call_ensures(ValueSource::parse_fallback, (&source, bound), r),
        bound matches Err(e) ==> (e.span matches Some(range) ==> range.start + source.start
            <= usize::MAX && range.end + source.start <= usize::MAX),
    ensures
        bound matches Ok(cells) ==> r == Ok::<Vec<Cell>, ErrorCode>(cells),
        bound matches Err(e) ==> {
            &&& r matches Err(f) && f.kind == e.kind && f.message == e.message && match e.span {
                None => f.span is None,
                Some(range) => f.span matches Some(moved) && moved.start == range.start
                    + source.start && moved.end == range.end + source.start,
            }
        },
{
}

/// All tokens but the first are left, in their order.
pub proof fn law_first_token_is_left_out<T>(tokens: &[T], r: &[T], k: int)
    requires
        call_ensures(expr_tokens::<T>, (tokens,), r),
        tokens@.len() > 0,
        0 <= k < tokens@.len() - 1,
    ensures
        r@.len() == tokens@.len() - 1,
        r@[k] == tokens@[k + 1],
{
}

/// The pipeline begins with one source, that hands out the text of the plan and counts places from
/// where the plan says.
pub proof fn law_sourcer_reads_the_rows_of_the_plan(
    plan: ReplaceAsyncSourcer,
    ctx: Result<NameResolutionContext, ErrorCode>,
    r: Result<Sourcer, ErrorCode>,
    step: GenerateStep,
)
    requires
        call_ensures(PipelineBuilder::build_async_sourcer, (&plan, ctx), r),
        r matches Ok(s) ==> call_ensures(ValueSource::generate, (&s.source,), step),
    ensures
        ctx matches Err(e) ==> r == Err::<Sourcer, ErrorCode>(e),
        ctx matches Ok(c) ==> {
            &&& r matches Ok(s) && s.outputs == 1 && s.source.start == plan.start
                && s.source.name_resolution_ctx == c && s.source.schema == plan.schema
            &&& step matches GenerateStep::Decode { data, columns } && data@ == plan.value_data@
                && is_empty_for(columns@, plan.schema)
        },
{
    lemma_views_of_types(plan.schema);
}

/// A source is called by its name, and does not pass on a block without rows.
pub proof fn law_source_is_named_and_skips_empty_blocks()
    ensures
        NAME@ == "ValueSource"@,
        SKIP_EMPTY_DATA_BLOCK,
{
}

} // verus!
