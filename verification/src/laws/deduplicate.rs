//! Laws on the pipeline that sorts rows into those to insert and those to merge.

use std::sync::Arc;

use vstd::prelude::*;

use crate::exception::ErrorKind;
use crate::expression::schema::{field_views, DataField, DataSchema};
use crate::laws::expression::{
    is_absent, is_first, law_lists_of_fields_are_told_apart, law_position_is_that_of_the_first,
    same_fields,
};
use crate::pipeline::builder::{transform_views, PipelineBuilder, Table, Transform};
use crate::pipeline::deduplicate::{
    deduplicate_views, transform_steps, DeduplicateStep, DeduplicateView, ReplaceDeduplicate,
    SortedBy,
};
use crate::pipeline::fill_missing_columns::fill_steps;
use crate::pipeline::pipe::PipeItem;

verus! {

/// The two transforms do the same.
pub open spec fn same_transform(a: Transform, b: Transform) -> bool {
    match (a, b) {
        (
            Transform::ResortAddOn { source: s, target: t },
            Transform::ResortAddOn { source: u, target: v },
        ) => same_fields(s.fields@, u.fields@) && same_fields(t.fields@, v.fields@),
        (
            Transform::AddComputedColumns { source: s, target: t },
            Transform::AddComputedColumns { source: u, target: v },
        ) => same_fields(s.fields@, u.fields@) && same_fields(t.fields@, v.fields@),
        (
            Transform::AddStreamColumns { version: v },
            Transform::AddStreamColumns { version: w },
        ) => v == w,
        (
            Transform::CastSchema { source: s, target: t },
            Transform::CastSchema { source: u, target: v },
        ) => same_fields(s.fields@, u.fields@) && same_fields(t.fields@, v.fields@),
        _ => false,
    }
}

proof fn lemma_same_transform(a: Transform, b: Transform)
    ensures
        a@ == b@ ==> same_transform(a, b),
{
    match (a, b) {
        (
            Transform::ResortAddOn { source: s, target: t },
            Transform::ResortAddOn { source: u, target: v },
        ) => {
            law_lists_of_fields_are_told_apart(s.fields@, u.fields@);
            law_lists_of_fields_are_told_apart(t.fields@, v.fields@);
        },
        (
            Transform::AddComputedColumns { source: s, target: t },
            Transform::AddComputedColumns { source: u, target: v },
        ) => {
            law_lists_of_fields_are_told_apart(s.fields@, u.fields@);
            law_lists_of_fields_are_told_apart(t.fields@, v.fields@);
        },
        (
            Transform::CastSchema { source: s, target: t },
            Transform::CastSchema { source: u, target: v },
        ) => {
            law_lists_of_fields_are_told_apart(s.fields@, u.fields@);
            law_lists_of_fields_are_told_apart(t.fields@, v.fields@);
        },
        _ => {},
    }
}

/// From step `base` on, the steps add those transforms, in their order.
pub open spec fn adds_transforms(
    steps: Seq<DeduplicateStep>,
    base: int,
    transforms: Seq<Transform>,
) -> bool {
    forall|k: int|
        0 <= k < transforms.len() ==> adds_transform(steps, base, #[trigger] transforms[k], k)
}

/// The `k`-th step from `base` on adds that transform.
pub open spec fn adds_transform(
    steps: Seq<DeduplicateStep>,
    base: int,
    transform: Transform,
    k: int,
) -> bool {
    0 <= base + k < steps.len() && (steps[base + k] matches DeduplicateStep::AddTransform(t)
        && same_transform(t, transform))
}

/// The processor that sorts rows is told what the plan says of the table.
pub open spec fn is_told(by: SortedBy, plan: ReplaceDeduplicate) -> bool {
    &&& by.on_conflicts == plan.on_conflicts
    &&& by.bloom_filter_column_indexes == plan.bloom_filter_column_indexes
    &&& by.table_schema == plan.table_schema
    &&& by.table_is_empty == plan.table_is_empty
    &&& by.table_level_range_index == plan.table_level_range_index
}

/// The last four steps, from `base` on: rows are sorted into clusters, all of them are brought to
/// come one way, the processor that sorts them is made by the plan, and its pipe is added. It has
/// two outputs where rows are inserted, and one where they are only deleted. `delete` is the number
/// of the column that says which rows are deleted.
pub open spec fn ends_with_sorting(
    steps: Seq<DeduplicateStep>,
    base: int,
    plan: ReplaceDeduplicate,
    delete: int,
) -> bool {
    &&& steps.len() == base + 4
    &&& steps[base] is ClusterGen
    &&& steps[base + 1] matches DeduplicateStep::Resize(outputs) && outputs == 1
    &&& plan.need_insert ==> {
        &&& steps[base + 2] matches DeduplicateStep::CreateReplaceInto(by, told) && is_told(by, plan)
            && match plan.delete_when {
            None => told is None,
            Some(when) => told matches Some((expr, index)) && expr == when.expr && index == delete,
        }
        &&& steps[base + 3] matches DeduplicateStep::AddPipe(pipe) && pipe.input_length == 1
            && pipe.output_length == 2 && pipe.items@ == seq![PipeItem::ReplaceInto]
    }
    &&& !plan.need_insert ==> {
        &&& steps[base + 2] matches DeduplicateStep::CreateUnbranchedReplaceInto(by, told)
            && is_told(by, plan) && match plan.delete_when {
            None => told is None,
            Some(_) => told matches Some(index) && index == delete,
        }
        &&& steps[base + 3] matches DeduplicateStep::AddPipe(pipe) && pipe.input_length == 1
            && pipe.output_length == 1 && pipe.items@ == seq![PipeItem::UnbranchedReplaceInto]
    }
}

/// The query has the column that says which rows are deleted, and it is the `index`-th.
pub open spec fn deletes_by(plan: ReplaceDeduplicate, index: int) -> bool {
    &&& plan.select_ctx matches Some(select) && (plan.delete_when matches Some(when) && is_first(
        select.select_schema.fields@,
        when.column@,
        index,
    ))
}

/// The columns that rows of the query have to have: those of the table, and where the query says
/// which rows are deleted also its column for that, at the same place.
pub open spec fn is_wanted(
    plan: ReplaceDeduplicate,
    index: int,
    wanted: Seq<DataField>,
) -> bool {
    &&& plan.select_ctx matches Some(select) && match plan.delete_when {
        None => wanted == plan.table_schema.fields@,
        Some(when) => {
            &&& is_first(select.select_schema.fields@, when.column@, index)
            &&& index <= plan.table_schema.fields@.len()
            &&& wanted == plan.table_schema.fields@.insert(
                index,
                select.select_schema.fields@[index],
            )
        },
    }
}

proof fn lemma_views_inserted(fields: Seq<DataField>, index: int, field: DataField)
    requires
        0 <= index <= fields.len(),
    ensures
        field_views(fields.insert(index, field)) == field_views(fields).insert(index, field@),
{
    let a = field_views(fields.insert(index, field));
    let b = field_views(fields).insert(index, field@);
    assert(a.len() == b.len());
    assert forall|k: int| 0 <= k < a.len() implies a[k] == b[k] by {
        assert(a[k] == fields.insert(index, field)[k]@);
    }
    assert(a =~= b);
}

proof fn lemma_step_views(plan: ReplaceDeduplicate, table: Table, r: Vec<DeduplicateStep>)
    requires
        call_ensures(PipelineBuilder::build_deduplicate, (&plan, &table), r),
    ensures
        r@.len() == plan.steps(table).len(),
        forall|k: int| 0 <= k < r@.len() ==> (#[trigger] r@[k])@ == plan.steps(table)[k],
{
    assert(deduplicate_views(r@).len() == r@.len());
    assert forall|k: int| 0 <= k < r@.len() implies (#[trigger] r@[k])@ == plan.steps(table)[k] by {
        assert(deduplicate_views(r@)[k] == r@[k]@);
    }
}

/// What follows the steps for the query: the transforms that fill columns, and the sorting.
proof fn lemma_rest(
    plan: ReplaceDeduplicate,
    table: Table,
    r: Vec<DeduplicateStep>,
    source: Arc<DataSchema>,
    filled: Vec<Transform>,
)
    requires
        call_ensures(PipelineBuilder::build_deduplicate, (&plan, &table), r),
        same_fields(source.fields@, plan.table_schema.fields@),
        call_ensures(
            PipelineBuilder::build_fill_missing_columns_pipeline,
            (&table, &source),
            filled,
        ),
        !plan.is_refused(),
        0 <= plan.delete_index() <= usize::MAX,
    ensures
        r@.len() == 1 + plan.select_steps().len() + filled@.len() + 4,
        adds_transforms(r@, 1 + plan.select_steps().len() as int, filled@),
        ends_with_sorting(
            r@,
            1int + plan.select_steps().len() + filled@.len(),
            plan,
            plan.delete_index(),
        ),
        r@[1int + plan.select_steps().len() + filled@.len()]@ == DeduplicateView::ClusterGen(
            plan.modified_fields(),
        ),
{
    lemma_step_views(plan, table, r);
    law_lists_of_fields_are_told_apart(source.fields@, plan.table_schema.fields@);
    let fill = fill_steps(table, plan.table_schema@);
    let adds = transform_steps(fill);
    let base = 1 + plan.select_steps().len() as int;
    let end = base + filled@.len();
    let steps = plan.steps(table);
    assert(transform_views(filled@) == fill);
    assert(transform_views(filled@).len() == filled@.len());
    assert(adds.len() == filled@.len());
    assert(steps.len() == end + 4);
    assert forall|k: int| 0 <= k < filled@.len() implies adds_transform(
        r@,
        base,
        #[trigger] filled@[k],
        k,
    ) by {
        assert(transform_views(filled@)[k] == filled@[k]@);
        assert(steps[base + k] == adds[k]);
        assert(r@[base + k]@ == DeduplicateView::AddTransform(filled@[k]@));
        if let DeduplicateStep::AddTransform(t) = r@[base + k] {
            lemma_same_transform(t, filled@[k]);
        }
    }
    assert(r@[end]@ == plan.sorting_steps()[0]);
    assert(r@[end + 1]@ == plan.sorting_steps()[1]);
    assert(r@[end + 2]@ == plan.sorting_steps()[2]);
    assert(r@[end + 3]@ == plan.sorting_steps()[3]);
}

/// Where the rows are written out in the statement, they are built, filled and sorted, and nothing
/// is asked of their columns.
pub proof fn law_written_out_rows_are_filled_and_sorted(
    plan: ReplaceDeduplicate,
    table: Table,
    r: Vec<DeduplicateStep>,
    source: Arc<DataSchema>,
    filled: Vec<Transform>,
)
    requires
        call_ensures(PipelineBuilder::build_deduplicate, (&plan, &table), r),
        plan.select_ctx is None,
        same_fields(source.fields@, plan.table_schema.fields@),
        call_ensures(
            PipelineBuilder::build_fill_missing_columns_pipeline,
            (&table, &source),
            filled,
        ),
    ensures
        r@.len() == 1 + filled@.len() + 4,
        r@[0] is BuildInput,
        adds_transforms(r@, 1, filled@),
        ends_with_sorting(r@, 1int + filled@.len(), plan, 0),
        r@[1int + filled@.len()] matches DeduplicateStep::ClusterGen(schema) && schema is None,
{
    lemma_rest(plan, table, r, source, filled);
    lemma_step_views(plan, table, r);
    assert(r@[0]@ == plan.steps(table)[0]);
    assert(r@[0]@ == DeduplicateView::BuildInput);
}

/// A query that lacks the column that says which rows are deleted is refused after it was built and
/// projected, with an error that names the column, and nothing else is done.
pub proof fn law_query_without_the_delete_column_is_refused(
    plan: ReplaceDeduplicate,
    table: Table,
    r: Vec<DeduplicateStep>,
)
    requires
        call_ensures(PipelineBuilder::build_deduplicate, (&plan, &table), r),
        plan.select_ctx matches Some(select) && (plan.delete_when matches Some(when) && is_absent(
            select.select_schema.fields@,
            when.column@,
        )),
    ensures
        r@.len() == 3,
        r@[0] is BuildInput,
        r@[1] matches DeduplicateStep::ResultProjection(columns) && columns
            == plan.select_ctx.unwrap().select_column_bindings,
        r@[2] matches DeduplicateStep::Fail(e) && e.kind == ErrorKind::UnknownColumn && e.message@
            == plan.delete_when.unwrap().column@ && e.span is None,
{
    law_position_is_that_of_the_first(
        plan.select_ctx.unwrap().select_schema.fields@,
        plan.delete_when.unwrap().column@,
        0,
    );
    lemma_step_views(plan, table, r);
    assert(plan.lacks_delete_column());
    assert(r@[0]@ == plan.steps(table)[0]);
    assert(r@[1]@ == plan.select_steps()[0]);
    assert(r@[2]@ == plan.select_steps()[1]);
}

proof fn lemma_wanted(plan: ReplaceDeduplicate, index: int, wanted: Seq<DataField>)
    requires
        is_wanted(plan, index, wanted),
    ensures
        !plan.lacks_delete_column(),
        plan.target_fields() == field_views(wanted),
        plan.deletes() ==> plan.delete_index() == index,
        !plan.deletes() ==> plan.delete_index() == 0,
        field_views(wanted).len() == wanted.len(),
{
    let select = plan.select_ctx.unwrap();
    if let Some(when) = plan.delete_when {
        law_position_is_that_of_the_first(select.select_schema.fields@, when.column@, index);
        lemma_views_inserted(
            plan.table_schema.fields@,
            index,
            select.select_schema.fields@[index],
        );
        assert(select.select_schema@[index] == select.select_schema.fields@[index]@);
    }
}

/// A query with more or fewer columns than are wanted is refused after it was built and projected,
/// with an error that says so, and nothing else is done.
pub proof fn law_query_with_other_columns_is_refused(
    plan: ReplaceDeduplicate,
    table: Table,
    r: Vec<DeduplicateStep>,
    index: int,
    wanted: Seq<DataField>,
)
    requires
        call_ensures(PipelineBuilder::build_deduplicate, (&plan, &table), r),
        is_wanted(plan, index, wanted),
        plan.select_ctx.unwrap().select_schema.fields@.len() != wanted.len(),
    ensures
        r@.len() == 3,
        r@[0] is BuildInput,
        r@[1] matches DeduplicateStep::ResultProjection(columns) && columns
            == plan.select_ctx.unwrap().select_column_bindings,
        r@[2] matches DeduplicateStep::Fail(e) && e.kind == ErrorKind::BadArguments && e.message@
            == "The number of columns in the target table is different from the number of columns in the SELECT clause"@
            && e.span is None,
{
    lemma_wanted(plan, index, wanted);
    lemma_step_views(plan, table, r);
    assert(plan.select_fields().len() == plan.select_ctx.unwrap().select_schema.fields@.len());
    assert(plan.columns_differ());
    assert(r@[0]@ == plan.steps(table)[0]);
    assert(r@[1]@ == plan.select_steps()[0]);
    assert(r@[2]@ == plan.select_steps()[1]);
}

/// Rows of a query with as many columns as are wanted are built and projected, and then brought to
/// the wanted columns: by a cast from the columns of the query where they are others, and by
/// nothing where they are the same. Then they are filled and sorted. Where the query says which
/// rows are deleted, clusters are made for the wanted columns, and the processor that sorts rows is
/// told where the column is.
pub proof fn law_queried_rows_are_brought_to_the_wanted_columns(
    plan: ReplaceDeduplicate,
    table: Table,
    r: Vec<DeduplicateStep>,
    index: int,
    wanted: Seq<DataField>,
    source: Arc<DataSchema>,
    filled: Vec<Transform>,
)
    requires
        call_ensures(PipelineBuilder::build_deduplicate, (&plan, &table), r),
        is_wanted(plan, index, wanted),
        0 <= index <= usize::MAX,
        plan.select_ctx.unwrap().select_schema.fields@.len() == wanted.len(),
        same_fields(source.fields@, plan.table_schema.fields@),
        call_ensures(
            PipelineBuilder::build_fill_missing_columns_pipeline,
            (&table, &source),
            filled,
        ),
    ensures
        ({
            let select = plan.select_ctx.unwrap();
            let is_cast = !same_fields(select.select_schema.fields@, wanted);
            let base = if is_cast {
                3int
            } else {
                2int
            };
            let end = base + filled@.len();
            &&& r@[0] is BuildInput
            &&& r@[1] matches DeduplicateStep::ResultProjection(columns) && columns
                == select.select_column_bindings
            &&& is_cast ==> (r@[2] matches DeduplicateStep::AddTransform(
                Transform::CastSchema { source: from, target },
            ) && same_fields(from.fields@, select.select_schema.fields@) && same_fields(
                target.fields@,
                wanted,
            ))
            &&& adds_transforms(r@, base, filled@)
            &&& ends_with_sorting(
                r@,
                end,
                plan,
                if plan.delete_when is Some {
                    index
                } else {
                    0
                },
            )
            &&& r@[end] matches DeduplicateStep::ClusterGen(schema) && match plan.delete_when {
                None => schema is None,
                Some(_) => schema matches Some(s) && same_fields(s.fields@, wanted),
            }
        }),
{
    let select = plan.select_ctx.unwrap();
    lemma_wanted(plan, index, wanted);
    assert(plan.select_fields().len() == select.select_schema.fields@.len());
    assert(!plan.is_refused());
    law_lists_of_fields_are_told_apart(select.select_schema.fields@, wanted);
    lemma_rest(plan, table, r, source, filled);
    lemma_step_views(plan, table, r);
    assert(r@[0]@ == plan.steps(table)[0]);
    assert(r@[1]@ == plan.select_steps()[0]);
    if !same_fields(select.select_schema.fields@, wanted) {
        assert(r@[2]@ == plan.select_steps()[1]);
        if let DeduplicateStep::AddTransform(Transform::CastSchema { source: from, target }) =
            r@[2] {
            law_lists_of_fields_are_told_apart(from.fields@, select.select_schema.fields@);
            law_lists_of_fields_are_told_apart(target.fields@, wanted);
        }
    }
    let end = 1int + plan.select_steps().len() + filled@.len();
    if let DeduplicateStep::ClusterGen(Some(s)) = r@[end] {
        law_lists_of_fields_are_told_apart(s.fields@, wanted);
    }
}

/// A plan can be built a pipeline for where the column that says which rows are deleted can stand
/// between those of the table, or there is none.
pub proof fn law_every_deduplication_can_be_built(
    plan: ReplaceDeduplicate,
    table: Table,
    index: int,
)
    requires
        plan.select_ctx is None || plan.delete_when is None || is_absent(
            plan.select_ctx.unwrap().select_schema.fields@,
            plan.delete_when.unwrap().column@,
        ) || (deletes_by(plan, index) && index <= plan.table_schema.fields@.len()),
    ensures
        call_requires(PipelineBuilder::build_deduplicate, (&plan, &table)),
{
    if plan.select_ctx is Some && plan.delete_when is Some {
        law_position_is_that_of_the_first(
            plan.select_ctx.unwrap().select_schema.fields@,
            plan.delete_when.unwrap().column@,
            index,
        );
    }
    assert(plan.table_schema@.len() == plan.table_schema.fields@.len());
    assert(plan.delete_column_fits());
}

} // verus!
