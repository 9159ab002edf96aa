//! Filling the columns of a table that rows to be appended do not have.

use std::sync::Arc;

use vstd::prelude::*;

use crate::expression::schema::{
    without_computed, without_virtual_computed, ComputedView, DataSchema, FieldView,
};
use crate::pipeline::builder::{transform_views, PipelineBuilder, Table, Transform, TransformView};

verus! {

/// The transform that brings rows into the columns of the table that are not computed.
pub open spec fn resort_step(source: Seq<FieldView>, fields: Seq<FieldView>) -> Seq<
    TransformView,
> {
    let default = without_computed(fields);
    if source != default {
        seq![TransformView::ResortAddOn { source, target: default }]
    } else {
        Seq::empty()
    }
}

/// The transform that adds the columns of the table that are computed when a row is written.
pub open spec fn computed_step(fields: Seq<FieldView>) -> Seq<TransformView> {
    let default = without_computed(fields);
    let computed = without_virtual_computed(fields);
    if default != computed {
        seq![TransformView::AddComputedColumns { source: default, target: computed }]
    } else {
        Seq::empty()
    }
}

/// The transform that adds the columns by which changes are tracked.
pub open spec fn stream_step(change_tracking_enabled: bool, seq: u64) -> Seq<TransformView> {
    if change_tracking_enabled {
        seq![TransformView::AddStreamColumns { version: seq }]
    } else {
        Seq::empty()
    }
}

/// What is added to a pipeline so that its rows have all columns that the table keeps.
pub open spec fn fill_steps(table: Table, source: Seq<FieldView>) -> Seq<TransformView> {
    resort_step(source, table.schema@) + computed_step(table.schema@) + stream_step(
        table.change_tracking_enabled,
        table.seq,
    )
}

impl PipelineBuilder {
    /// The transforms that are added to a pipeline, in order, so that its rows have all columns
    /// that the table keeps.
    pub fn build_fill_missing_columns_pipeline(
        table: &Table,
        source_schema: &Arc<DataSchema>,
    ) -> (r: Vec<Transform>)
        ensures
            transform_views(r@) == fill_steps(*table, source_schema@),
    {
        let default_schema = Arc::new(table.schema.remove_computed_fields().to_data_schema());
        let computed_schema = Arc::new(
            table.schema.remove_virtual_computed_fields().to_data_schema(),
        );
        let mut transforms: Vec<Transform> = Vec::new();
        // Fill missing default columns and resort the columns.
        if !source_schema.same(&default_schema) {
            transforms.push(
                Transform::ResortAddOn {
                    source: source_schema.clone(),
                    target: default_schema.clone(),
                },
            );
        }
        assert(transform_views(transforms@) =~= resort_step(source_schema@, table.schema@));
        let ghost resorted = transforms@;
        // Fill computed columns.
        if !default_schema.same(&computed_schema) {
            transforms.push(
                Transform::AddComputedColumns { source: default_schema, target: computed_schema },
            );
            assert(transform_views(transforms@) =~= transform_views(resorted).push(
                transforms@.last()@,
            ));
        }
        assert(transform_views(transforms@) =~= resort_step(source_schema@, table.schema@)
            + computed_step(table.schema@));
        let ghost computed = transforms@;
        // Fill stream columns.
        if table.change_tracking_enabled {
            transforms.push(Transform::AddStreamColumns { version: table.seq });
            assert(transform_views(transforms@) =~= transform_views(computed).push(
                transforms@.last()@,
            ));
        }
        assert(transform_views(transforms@) =~= fill_steps(*table, source_schema@));
        transforms
    }
}

/// The field is computed when a row is written, and kept with it.
pub open spec fn is_stored(field: FieldView) -> bool {
    field.computed_expr matches Some(ComputedView::Stored(_))
}

/// The columns that are not computed are among those that are kept, and where one is stored there
/// are fewer of them.
proof fn lemma_filters(fields: Seq<FieldView>)
    ensures
        without_computed(fields).len() <= without_virtual_computed(fields).len(),
        (exists|i: int| 0 <= i < fields.len() && is_stored(#[trigger] fields[i]))
            ==> without_computed(fields).len() < without_virtual_computed(fields).len(),
        !(exists|i: int| 0 <= i < fields.len() && is_stored(#[trigger] fields[i]))
            ==> without_computed(fields) == without_virtual_computed(fields),
    decreases fields.len(),
{
    reveal(Seq::filter);
    if fields.len() > 0 {
        let front = fields.drop_last();
        let last = fields[fields.len() - 1];
        lemma_filters(front);
        assert forall|i: int| 0 <= i < front.len() implies #[trigger] front[i] == fields[i] by {}
        if exists|i: int| 0 <= i < fields.len() && is_stored(#[trigger] fields[i]) {
            let i = choose|i: int| 0 <= i < fields.len() && is_stored(#[trigger] fields[i]);
            if i < front.len() {
                assert(is_stored(front[i]));
            }
        } else {
            assert(!is_stored(last));
        }
    }
}

/// Computed columns are added exactly where the table has a column that is computed when a row is
/// written.
pub proof fn law_stored_columns_are_added(fields: Seq<FieldView>)
    ensures
        computed_step(fields).len() == 1 <==> exists|i: int|
            0 <= i < fields.len() && is_stored(#[trigger] fields[i]),
        computed_step(fields).len() <= 1,
{
    lemma_filters(fields);
}

/// The fields that rows have after a transform, where they had `fields` before.
pub open spec fn fields_after(fields: Seq<FieldView>, transform: TransformView) -> Seq<
    FieldView,
> {
    match transform {
        TransformView::ResortAddOn { target, .. } => target,
        TransformView::AddComputedColumns { target, .. } => target,
        TransformView::CastSchema { target, .. } => target,
        TransformView::AddStreamColumns { .. } => fields,
    }
}

/// The transform takes rows that have those fields.
pub open spec fn takes(fields: Seq<FieldView>, transform: TransformView) -> bool {
    match transform {
        TransformView::ResortAddOn { source, .. } => source == fields,
        TransformView::AddComputedColumns { source, .. } => source == fields,
        TransformView::CastSchema { source, .. } => source == fields,
        TransformView::AddStreamColumns { .. } => true,
    }
}

/// The fields that rows have after the first `k` transforms.
pub open spec fn fields_at(
    source: Seq<FieldView>,
    transforms: Seq<TransformView>,
    k: int,
) -> Seq<FieldView>
    decreases k,
{
    if k <= 0 {
        source
    } else {
        fields_after(fields_at(source, transforms, k - 1), transforms[k - 1])
    }
}

/// Each transform that is added takes what the one before it gives, and after the last one rows
/// have the columns that the table keeps, besides those by which changes are tracked.
pub proof fn law_transforms_connect(table: Table, source: Seq<FieldView>)
    ensures
        forall|k: int|
            0 <= k < fill_steps(table, source).len() ==> takes(
                fields_at(source, fill_steps(table, source), k),
                #[trigger] fill_steps(table, source)[k],
            ),
        fields_at(source, fill_steps(table, source), fill_steps(table, source).len() as int)
            == without_virtual_computed(table.schema@),
{
    let steps = fill_steps(table, source);
    let a = resort_step(source, table.schema@).len() as int;
    let b = a + computed_step(table.schema@).len();
    reveal_with_fuel(fields_at, 4);
    assert(a <= 1 && b <= a + 1 && steps.len() <= b + 1);
    assert(fields_at(source, steps, a) == without_computed(table.schema@));
    assert(fields_at(source, steps, b) == without_virtual_computed(table.schema@));
}

} // verus!
