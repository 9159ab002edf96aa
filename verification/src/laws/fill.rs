//! Laws on filling the columns of a table that rows do not have.

use std::sync::Arc;

use vstd::prelude::*;

use crate::expression::schema::{DataSchema, TableSchema};
use crate::laws::expression::{law_lists_of_fields_are_told_apart, same_fields};
use crate::pipeline::builder::{transform_views, PipelineBuilder, Table, Transform};
use crate::pipeline::fill_missing_columns::{computed_step, fill_steps, resort_step, stream_step};

verus! {

/// Rows are brought into the columns of the table that are not computed where they are not there
/// already, then the stored computed columns are added where there are any, then the columns by
/// which changes are tracked where they are tracked, for the version of the table. Nothing else is
/// done.
pub proof fn law_missing_columns_are_filled(
    table: Table,
    source: Arc<DataSchema>,
    plain: TableSchema,
    kept: TableSchema,
    r: Vec<Transform>,
)
    requires
        call_ensures(PipelineBuilder::build_fill_missing_columns_pipeline, (&table, &source), r),
        call_ensures(TableSchema::remove_computed_fields, (&table.schema,), plain),
        call_ensures(TableSchema::remove_virtual_computed_fields, (&table.schema,), kept),
    ensures
        ({
            let resorted = !same_fields(source.fields@, plain.fields@);
            let computed = !same_fields(plain.fields@, kept.fields@);
            let changes = table.change_tracking_enabled;
            let a = if resorted {
                1int
            } else {
                0
            };
            let b = if computed {
                a + 1
            } else {
                a
            };
            &&& r@.len() == if changes {
                b + 1
            } else {
                b
            }
            &&& resorted ==> (r@[0] matches Transform::ResortAddOn { source: from, target }
                && same_fields(from.fields@, source.fields@) && same_fields(
                target.fields@,
                plain.fields@,
            ))
            &&& computed ==> (r@[a] matches Transform::AddComputedColumns { source: from, target }
                && same_fields(from.fields@, plain.fields@) && same_fields(
                target.fields@,
                kept.fields@,
            ))
            &&& changes ==> (r@[b] matches Transform::AddStreamColumns { version } && version
                == table.seq)
        }),
{
    law_lists_of_fields_are_told_apart(source.fields@, plain.fields@);
    law_lists_of_fields_are_told_apart(plain.fields@, kept.fields@);
    let steps = fill_steps(table, source@);
    assert(transform_views(r@) == steps);
    assert(transform_views(r@).len() == r@.len());
    assert forall|k: int| 0 <= k < r@.len() implies (#[trigger] r@[k])@ == steps[k] by {
        assert(transform_views(r@)[k] == r@[k]@);
    }
    let a = resort_step(source@, table.schema@).len() as int;
    let b = a + computed_step(table.schema@).len();
    if a == 1 {
        assert(r@[0]@ == resort_step(source@, table.schema@)[0]);
        if let Transform::ResortAddOn { source: from, target } = r@[0] {
            law_lists_of_fields_are_told_apart(from.fields@, source.fields@);
            law_lists_of_fields_are_told_apart(target.fields@, plain.fields@);
        }
    }
    if b > a {
        assert(r@[a]@ == computed_step(table.schema@)[0]);
        if let Transform::AddComputedColumns { source: from, target } = r@[a] {
            law_lists_of_fields_are_told_apart(from.fields@, plain.fields@);
            law_lists_of_fields_are_told_apart(target.fields@, kept.fields@);
        }
    }
    if table.change_tracking_enabled {
        assert(r@[b]@ == stream_step(true, table.seq)[0]);
    }
}

} // verus!
