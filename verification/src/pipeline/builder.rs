//! What a builder of pipelines knows and lets be done.

use std::sync::Arc;

use vstd::prelude::*;

use crate::expression::schema::{DataSchema, FieldView, TableSchema};
use crate::expression::value::Cell;

verus! {

/// Works out what a pipeline is built of.
pub struct PipelineBuilder {}

/// What is known of a table.
pub struct Table {
    pub schema: TableSchema,
    /// Changes of rows are kept, for streams.
    pub change_tracking_enabled: bool,
    /// The version of the table.
    pub seq: u64,
}

/// A transform that is added to each output of the pipeline.
pub enum Transform {
    /// Puts columns in the order of the target, and adds those that are missing.
    ResortAddOn { source: Arc<DataSchema>, target: Arc<DataSchema> },
    /// Adds the computed columns of the target.
    AddComputedColumns { source: Arc<DataSchema>, target: Arc<DataSchema> },
    /// Adds the columns by which changes are tracked, for rows of that version.
    AddStreamColumns { version: u64 },
    /// Casts columns to the types of the target.
    CastSchema { source: Arc<DataSchema>, target: Arc<DataSchema> },
}

/// A `Transform` with the fields of its schemas.
#[verifier::ext_equal]
pub enum TransformView {
    ResortAddOn { source: Seq<FieldView>, target: Seq<FieldView> },
    AddComputedColumns { source: Seq<FieldView>, target: Seq<FieldView> },
    AddStreamColumns { version: u64 },
    CastSchema { source: Seq<FieldView>, target: Seq<FieldView> },
}

impl View for Transform {
    type V = TransformView;

    open spec fn view(&self) -> TransformView {
        match self {
            Transform::ResortAddOn { source, target } => TransformView::ResortAddOn {
                source: source@,
                target: target@,
            },
            Transform::AddComputedColumns {
                source,
                target,
            } => TransformView::AddComputedColumns { source: source@, target: target@ },
            Transform::AddStreamColumns { version } => TransformView::AddStreamColumns {
                version: *version,
            },
            Transform::CastSchema { source, target } => TransformView::CastSchema {
                source: source@,
                target: target@,
            },
        }
    }
}

/// The transforms, with the fields of their schemas.
pub open spec fn transform_views(transforms: Seq<Transform>) -> Seq<TransformView> {
    transforms.map_values(|t: Transform| t@)
}

/// A field by which it is found out which rows are replaced.
#[derive(Debug)]
pub struct OnConflictField {
    pub name: String,
    pub field_index: usize,
}

/// How large blocks may be.
#[derive(Clone, Copy, PartialEq, Eq, Debug, Structural)]
pub struct BlockThresholds {
    pub max_rows_per_block: usize,
    pub min_rows_per_block: usize,
    pub max_bytes_per_block: usize,
}

/// The part of the blocks that a node works on.
#[derive(Clone, Copy, PartialEq, Eq, Debug, Structural)]
pub struct BlockSlots {
    pub num_slots: usize,
    pub slot: u32,
}

/// The values that a column of the table lies between.
#[derive(Debug)]
pub struct ColumnRange {
    pub column_id: u32,
    pub min: Cell,
    pub max: Cell,
}

} // verus!
