use std::sync::Arc;

use databend_query::exception::ErrorKind;
use databend_query::expression::schema::{ComputedExpr, DataField, DataSchema, TableSchema};
use databend_query::merge::order::SortColumnDescription;
use databend_query::pipeline::builder::{
    BlockSlots, BlockThresholds, OnConflictField, PipelineBuilder, Table, Transform,
};
use databend_query::pipeline::deduplicate::{
    ColumnBinding, DeduplicateStep, DeleteWhen, ReplaceDeduplicate, ReplaceSelectCtx,
};
use databend_query::pipeline::pipe::{Pipe, PipeItem, Pipeline};
use databend_query::pipeline::replace_into::{ReplaceInto, ReplaceIntoStep};
use databend_query::pipeline::sort_merge::try_add_multi_sort_merge;

fn field(name: &str, data_type: &str) -> DataField {
    DataField {
        name: name.to_string(),
        data_type: data_type.to_string(),
        default_expr: None,
        computed_expr: None,
    }
}

fn computed(name: &str, computed_expr: ComputedExpr) -> DataField {
    DataField { computed_expr: Some(computed_expr), ..field(name, "INT") }
}

fn stored(name: &str) -> DataField {
    computed(name, ComputedExpr::Stored("a + 1".to_string()))
}

fn virtual_one(name: &str) -> DataField {
    computed(name, ComputedExpr::Virtual("a + 2".to_string()))
}

fn names(schema: &DataSchema) -> Vec<&str> {
    schema.fields.iter().map(|f| f.name.as_str()).collect()
}

fn schema(fields: Vec<DataField>) -> Arc<DataSchema> {
    Arc::new(DataSchema { fields })
}

fn table(fields: Vec<DataField>, change_tracking_enabled: bool) -> Table {
    Table { schema: TableSchema { fields }, change_tracking_enabled, seq: 17 }
}

fn sort_by_a() -> Arc<Vec<SortColumnDescription>> {
    Arc::new(vec![SortColumnDescription {
        column_name: "a".to_string(),
        asc: true,
        nulls_first: true,
    }])
}

fn source(outputs: usize) -> Pipeline {
    Pipeline { pipes: vec![Pipe::create(0, outputs, vec![])] }
}

#[test]
fn outputs_are_merged_into_one() {
    let mut pipeline = source(3);
    let output = schema(vec![field("a", "INT")]);
    try_add_multi_sort_merge(&mut pipeline, output, 10, Some(5), sort_by_a()).unwrap();
    assert_eq!(pipeline.pipes.len(), 2);
    let pipe = &pipeline.pipes[1];
    assert_eq!((pipe.input_length, pipe.output_size()), (3, 1));
    assert_eq!(pipe.items.len(), 1);
    match &pipe.items[0] {
        PipeItem::MultiSortMerge(p) => {
            assert_eq!(p.inputs.len(), 3);
            assert_eq!((p.block_size, p.limit), (10, Some(5)));
            assert!(!p.aborting);
            assert!(p.heap.is_empty() && p.blocks.iter().all(|b| b.is_empty()));
        }
        _ => panic!("no merge"),
    }
}

#[test]
fn one_output_is_left_alone() {
    let mut pipeline = source(1);
    let output = schema(vec![field("a", "INT")]);
    try_add_multi_sort_merge(&mut pipeline, output, 10, None, sort_by_a()).unwrap();
    assert_eq!(pipeline.pipes.len(), 1);
}

#[test]
fn pipeline_without_outputs_cannot_be_merged() {
    for mut pipeline in vec![Pipeline { pipes: vec![] }, source(0)] {
        let before = pipeline.pipes.len();
        let output = schema(vec![field("a", "INT")]);
        let e = try_add_multi_sort_merge(&mut pipeline, output, 10, None, sort_by_a()).unwrap_err();
        assert_eq!(e.kind, ErrorKind::LogicalError);
        assert_eq!(e.message, "Cannot resize empty pipe.");
        assert_eq!(pipeline.pipes.len(), before);
    }
}

#[test]
fn nothing_is_filled_where_nothing_is_missing() {
    let t = table(vec![field("a", "INT"), virtual_one("v")], false);
    let from = schema(vec![field("a", "INT")]);
    assert!(PipelineBuilder::build_fill_missing_columns_pipeline(&t, &from).is_empty());
}

#[test]
fn columns_are_filled_in_order() {
    let t = table(vec![field("a", "INT"), stored("s"), field("b", "INT"), virtual_one("v")], true);
    let from = schema(vec![field("b", "INT")]);
    let transforms = PipelineBuilder::build_fill_missing_columns_pipeline(&t, &from);
    assert_eq!(transforms.len(), 3);
    match &transforms[0] {
        Transform::ResortAddOn { source, target } => {
            assert_eq!(names(source), vec!["b"]);
            assert_eq!(names(target), vec!["a", "b"]);
        }
        _ => panic!("columns are not resorted"),
    }
    match &transforms[1] {
        Transform::AddComputedColumns { source, target } => {
            assert_eq!(names(source), vec!["a", "b"]);
            assert_eq!(names(target), vec!["a", "s", "b"]);
        }
        _ => panic!("columns are not computed"),
    }
    assert!(matches!(&transforms[2], Transform::AddStreamColumns { version: 17 }));
}

#[test]
fn only_stored_columns_are_added() {
    let from = schema(vec![field("a", "INT")]);
    let with_stored = table(vec![field("a", "INT"), stored("s")], false);
    let transforms = PipelineBuilder::build_fill_missing_columns_pipeline(&with_stored, &from);
    assert_eq!(transforms.len(), 1);
    assert!(matches!(&transforms[0], Transform::AddComputedColumns { .. }));
    let with_changes = table(vec![field("a", "INT")], true);
    let transforms = PipelineBuilder::build_fill_missing_columns_pipeline(&with_changes, &from);
    assert_eq!(transforms.len(), 1);
    assert!(matches!(&transforms[0], Transform::AddStreamColumns { .. }));
}

fn on_conflicts() -> Arc<Vec<OnConflictField>> {
    Arc::new(vec![OnConflictField { name: "a".to_string(), field_index: 0 }])
}

fn replace(segments: usize, need_insert: bool) -> ReplaceInto {
    ReplaceInto {
        block_thresholds: BlockThresholds {
            max_rows_per_block: 1000,
            min_rows_per_block: 800,
            max_bytes_per_block: 1 << 20,
        },
        on_conflicts: on_conflicts(),
        bloom_filter_column_indexes: Arc::new(vec![0, 2]),
        segments: Arc::new((0..segments).map(|i| (i, format!("segment {}", i))).collect()),
        block_slots: Some(BlockSlots { num_slots: 2, slot: 1 }),
        need_insert,
    }
}

fn item_name(item: &PipeItem) -> String {
    match item {
        PipeItem::SerializeBlock => "block".to_string(),
        PipeItem::SerializeSegment => "segment".to_string(),
        PipeItem::Dummy => "dummy".to_string(),
        PipeItem::Broadcast(n) => format!("broadcast {}", n),
        PipeItem::MergeIntoMutator(k) => format!("mutator {}", k),
        PipeItem::ReplaceInto => "replace".to_string(),
        PipeItem::UnbranchedReplaceInto => "unbranched".to_string(),
        PipeItem::MultiSortMerge(_) => "merge".to_string(),
    }
}

fn pipe_text(pipe: &Pipe) -> String {
    let items: Vec<String> = pipe.items.iter().map(item_name).collect();
    format!("{} -> {}: {}", pipe.input_length, pipe.output_length, items.join(", "))
}

fn replace_steps(plan: &ReplaceInto, max_threads: u64, again: u64) -> Vec<String> {
    let mut steps = PipelineBuilder::build_replace_into(plan, max_threads);
    if let Some(ReplaceIntoStep::MaxThreads(partitions)) = steps.last() {
        let merge = PipelineBuilder::build_mutators(plan, *partitions, again);
        steps.extend(merge);
    }
    steps
        .iter()
        .map(|step| match step {
            ReplaceIntoStep::BuildTable => "table".to_string(),
            ReplaceIntoStep::CheckTable => "check".to_string(),
            ReplaceIntoStep::ClusterStats(t) => format!("stats {}", t.max_rows_per_block),
            ReplaceIntoStep::BuildInput => "input".to_string(),
            ReplaceIntoStep::CreateSerializers(t) => {
                format!("serializers {}", t.min_rows_per_block)
            }
            ReplaceIntoStep::AddPipe(pipe) => pipe_text(pipe),
            ReplaceIntoStep::MaxThreads(partitions) => format!("threads for {}", partitions),
            ReplaceIntoStep::CreateMutators(m) => {
                assert_eq!(m.segments.len(), plan.segments.len());
                assert_eq!(m.block_slots, plan.block_slots);
                assert_eq!(m.on_conflicts[0].name, "a");
                assert_eq!(*m.bloom_filter_column_indexes, vec![0, 2]);
                format!("mutators {}, requests {}", m.partitions, m.requests)
            }
        })
        .collect()
}

const FIRST: [&str; 5] = ["table", "check", "stats 1000", "input", "serializers 800"];

fn after_first(steps: Vec<String>) -> Vec<String> {
    assert_eq!(steps[..5], FIRST);
    steps[5..].to_vec()
}

#[test]
fn replaced_rows_are_spread_over_mutators() {
    let steps = after_first(replace_steps(&replace(5, true), 3, 4));
    assert_eq!(
        steps,
        vec![
            "2 -> 4: block, broadcast 3",
            "threads for 3",
            "mutators 3, requests 4",
            "4 -> 4: segment, mutator 0, mutator 1, mutator 2",
        ]
    );
}

#[test]
fn there_are_no_more_mutators_than_segments() {
    let steps = after_first(replace_steps(&replace(1, true), 8, 8));
    assert_eq!(
        steps,
        vec![
            "2 -> 2: block, broadcast 1",
            "threads for 1",
            "mutators 1, requests 8",
            "2 -> 2: segment, mutator 0",
        ]
    );
}

#[test]
fn table_without_segments_is_only_written_to() {
    let steps = after_first(replace_steps(&replace(0, true), 8, 8));
    assert_eq!(steps, vec!["2 -> 2: block, dummy", "2 -> 2: segment, dummy"]);
}

#[test]
fn rows_that_are_only_deleted_are_not_written() {
    let steps = after_first(replace_steps(&replace(5, false), 4, 4));
    assert_eq!(
        steps,
        vec![
            "1 -> 4: broadcast 4",
            "threads for 4",
            "mutators 4, requests 4",
            "4 -> 4: mutator 0, mutator 1, mutator 2, mutator 3",
        ]
    );
    assert!(after_first(replace_steps(&replace(0, false), 8, 8)).is_empty());
    assert!(after_first(replace_steps(&replace(4, false), 0, 0)).is_empty());
}

fn deduplicate(
    table_fields: Vec<DataField>,
    select: Option<Vec<DataField>>,
    delete_column: Option<&str>,
    need_insert: bool,
) -> ReplaceDeduplicate {
    ReplaceDeduplicate {
        on_conflicts: on_conflicts(),
        bloom_filter_column_indexes: Arc::new(vec![1]),
        table_is_empty: false,
        select_ctx: select.map(|fields| ReplaceSelectCtx {
            select_column_bindings: Arc::new(vec![ColumnBinding {
                column_name: "bound".to_string(),
                index: 4,
            }]),
            select_schema: schema(fields),
        }),
        table_level_range_index: Arc::new(vec![]),
        table_schema: Arc::new(TableSchema { fields: table_fields }),
        need_insert,
        delete_when: delete_column.map(|c| DeleteWhen {
            expr: Arc::new("x > 0".to_string()),
            column: c.to_string(),
        }),
    }
}

fn deduplicate_steps(plan: &ReplaceDeduplicate, table: &Table) -> Vec<String> {
    PipelineBuilder::build_deduplicate(plan, table)
        .iter()
        .map(|step| match step {
            DeduplicateStep::BuildInput => "input".to_string(),
            DeduplicateStep::ResultProjection(bindings) => {
                format!("project {} {}", bindings[0].column_name, bindings[0].index)
            }
            DeduplicateStep::Fail(e) => format!("{:?}: {}", e.kind, e.message),
            DeduplicateStep::AddTransform(Transform::CastSchema { source, target }) => {
                format!("cast {:?} to {:?}", names(source), names(target))
            }
            DeduplicateStep::AddTransform(Transform::AddStreamColumns { version }) => {
                format!("stream {}", version)
            }
            DeduplicateStep::AddTransform(_) => "fill".to_string(),
            DeduplicateStep::ClusterGen(None) => "cluster".to_string(),
            DeduplicateStep::ClusterGen(Some(s)) => format!("cluster {:?}", names(s)),
            DeduplicateStep::Resize(n) => format!("resize {}", n),
            DeduplicateStep::CreateReplaceInto(by, delete) => {
                assert_eq!(by.on_conflicts[0].name, "a");
                assert_eq!(*by.bloom_filter_column_indexes, vec![1]);
                assert!(!by.table_is_empty);
                format!("replace {:?}", delete)
            }
            DeduplicateStep::CreateUnbranchedReplaceInto(_, delete) => {
                format!("unbranched {:?}", delete)
            }
            DeduplicateStep::AddPipe(pipe) => pipe_text(pipe),
        })
        .collect()
}

fn two_columns() -> Vec<DataField> {
    vec![field("a", "INT"), field("b", "INT")]
}

#[test]
fn written_out_rows_are_sorted_for_replacing() {
    let plan = deduplicate(two_columns(), None, None, true);
    assert_eq!(
        deduplicate_steps(&plan, &table(two_columns(), true)),
        vec!["input", "stream 17", "cluster", "resize 1", "replace None", "1 -> 2: replace"]
    );
}

#[test]
fn queried_rows_are_cast_where_types_differ() {
    let select = vec![field("a", "INT"), field("b", "STRING")];
    let plan = deduplicate(two_columns(), Some(select), None, true);
    assert_eq!(
        deduplicate_steps(&plan, &table(two_columns(), false)),
        vec![
            "input",
            "project bound 4",
            "cast [\"a\", \"b\"] to [\"a\", \"b\"]",
            "cluster",
            "resize 1",
            "replace None",
            "1 -> 2: replace",
        ]
    );
    let plan = deduplicate(two_columns(), Some(two_columns()), None, true);
    assert_eq!(deduplicate_steps(&plan, &table(two_columns(), false))[2], "cluster");
}

#[test]
fn delete_column_stands_where_the_query_has_it() {
    let select = vec![field("a", "INT"), field("gone", "BOOLEAN"), field("b", "INT")];
    let plan = deduplicate(two_columns(), Some(select), Some("gone"), true);
    assert_eq!(
        deduplicate_steps(&plan, &table(two_columns(), false)),
        vec![
            "input",
            "project bound 4",
            "cluster [\"a\", \"gone\", \"b\"]",
            "resize 1",
            "replace Some((\"x > 0\", 1))",
            "1 -> 2: replace",
        ]
    );
}

#[test]
fn rows_to_delete_go_one_way() {
    let select = vec![field("a", "INT"), field("b", "INT"), field("gone", "BOOLEAN")];
    let plan = deduplicate(two_columns(), Some(select), Some("gone"), false);
    let steps = deduplicate_steps(&plan, &table(two_columns(), false));
    assert_eq!(steps[steps.len() - 2], "unbranched Some(2)");
    assert_eq!(steps[steps.len() - 1], "1 -> 1: unbranched");
    let written_out = deduplicate(two_columns(), None, Some("gone"), false);
    let steps = deduplicate_steps(&written_out, &table(two_columns(), false));
    assert_eq!(steps[1], "cluster");
    assert_eq!(steps[steps.len() - 2], "unbranched Some(0)");
}

#[test]
fn query_without_the_delete_column_is_refused() {
    let plan = deduplicate(two_columns(), Some(two_columns()), Some("gone"), true);
    assert_eq!(
        deduplicate_steps(&plan, &table(two_columns(), false)),
        vec!["input", "project bound 4", "UnknownColumn: gone"]
    );
}

#[test]
fn query_with_another_number_of_columns_is_refused() {
    let plan = deduplicate(two_columns(), Some(vec![field("a", "INT")]), None, true);
    assert_eq!(
        deduplicate_steps(&plan, &table(two_columns(), false)),
        vec![
            "input",
            "project bound 4",
            "BadArguments: The number of columns in the target table is different from the number \
             of columns in the SELECT clause",
        ]
    );
}

#[test]
fn cast_is_needed_where_schemas_differ() {
    let a = schema(two_columns());
    let b = schema(vec![field("b", "INT"), field("a", "INT")]);
    assert!(!PipelineBuilder::check_schema_cast(&a, &schema(two_columns())).unwrap());
    assert!(PipelineBuilder::check_schema_cast(&a, &b).unwrap());
}
