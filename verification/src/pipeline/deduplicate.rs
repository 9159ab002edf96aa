//! Replacing rows of a table: what the pipeline is built of up to where the rows that come are
//! sorted into those to insert and those to merge.

use std::sync::Arc;

use vstd::prelude::*;

use crate::exception::{ErrorCode, ErrorKind, Span};
use crate::expression::schema::{
    field_position, lemma_field_position_in_range, unknown_column, DataSchema, FieldView, TableSchema,
};
use crate::pipeline::builder::{
    transform_views, ColumnRange, OnConflictField, PipelineBuilder, Table, Transform, TransformView,
};
use crate::pipeline::fill_missing_columns::fill_steps;
use crate::pipeline::pipe::{total_inputs, total_outputs, Pipe, PipeItem, PipeView};
use crate::pipeline::replace_into::{added_pipes, law_pipes_connect, pipe_steps, ReplaceInto};

verus! {

/// A column of a query's result.
#[derive(Debug)]
pub struct ColumnBinding {
    pub column_name: String,
    pub index: usize,
}

/// The query that the rows come from.
pub struct ReplaceSelectCtx {
    pub select_column_bindings: Arc<Vec<ColumnBinding>>,
    pub select_schema: Arc<DataSchema>,
}

/// Rows for which the expression holds are deleted. It is computed by the query, in the column of
/// that name.
pub struct DeleteWhen {
    pub expr: Arc<String>,
    pub column: String,
}

/// A plan to find out which rows of a table are replaced.
pub struct ReplaceDeduplicate {
    pub on_conflicts: Arc<Vec<OnConflictField>>,
    pub bloom_filter_column_indexes: Arc<Vec<usize>>,
    pub table_is_empty: bool,
    /// The query that the rows come from, if they come from one.
    pub select_ctx: Option<ReplaceSelectCtx>,
    pub table_level_range_index: Arc<Vec<ColumnRange>>,
    pub table_schema: Arc<TableSchema>,
    /// There are rows to insert, besides those to delete.
    pub need_insert: bool,
    pub delete_when: Option<DeleteWhen>,
}

/// What a processor that sorts rows is told of the table.
pub struct SortedBy {
    pub on_conflicts: Arc<Vec<OnConflictField>>,
    pub bloom_filter_column_indexes: Arc<Vec<usize>>,
    pub table_schema: Arc<TableSchema>,
    pub table_is_empty: bool,
    pub table_level_range_index: Arc<Vec<ColumnRange>>,
}

/// What is done to build the pipeline.
pub enum DeduplicateStep {
    /// Build the pipeline that the rows come from.
    BuildInput,
    /// Ask for the columns of the rows, and project them to those columns.
    ResultProjection(Arc<Vec<ColumnBinding>>),
    /// Give up with that error.
    Fail(ErrorCode),
    /// Add a transform to each output.
    AddTransform(Transform),
    /// Add what sorts rows into clusters, where rows have those columns instead of the table's.
    ClusterGen(Option<Arc<DataSchema>>),
    /// Bring the pipeline to that many outputs.
    Resize(usize),
    /// Make the processor that sorts rows into those to insert and those to merge. A row is
    /// deleted where the expression holds in the column of that number.
    CreateReplaceInto(SortedBy, Option<(Arc<String>, usize)>),
    /// Make the processor that lets through the rows to merge. A row is deleted where the column
    /// of that number says so.
    CreateUnbranchedReplaceInto(SortedBy, Option<usize>),
    /// Add a pipe.
    AddPipe(Pipe),
}

/// A `DeduplicateStep` with the fields of schemas and the items of a pipe as sequences.
#[verifier::ext_equal]
pub enum DeduplicateView {
    BuildInput,
    ResultProjection(Arc<Vec<ColumnBinding>>),
    Fail(ErrorKind, Seq<char>, Span),
    AddTransform(TransformView),
    ClusterGen(Option<Seq<FieldView>>),
    Resize(usize),
    CreateReplaceInto(SortedBy, Option<(Arc<String>, usize)>),
    CreateUnbranchedReplaceInto(SortedBy, Option<usize>),
    AddPipe(PipeView),
}

/// The fields of a schema, if there is one.
pub open spec fn schema_view(schema: Option<Arc<DataSchema>>) -> Option<Seq<FieldView>> {
    match schema {
        Some(s) => Some(s@),
        None => None,
    }
}

impl View for DeduplicateStep {
    type V = DeduplicateView;

    open spec fn view(&self) -> DeduplicateView {
        match self {
            DeduplicateStep::BuildInput => DeduplicateView::BuildInput,
            DeduplicateStep::ResultProjection(
                bindings,
            ) => DeduplicateView::ResultProjection(*bindings),
            DeduplicateStep::Fail(e) => DeduplicateView::Fail(e.kind, e.message@, e.span),
            DeduplicateStep::AddTransform(t) => DeduplicateView::AddTransform(t@),
            DeduplicateStep::ClusterGen(schema) => DeduplicateView::ClusterGen(
                schema_view(*schema),
            ),
            DeduplicateStep::Resize(outputs) => DeduplicateView::Resize(*outputs),
            DeduplicateStep::CreateReplaceInto(
                sorted_by,
                delete,
            ) => DeduplicateView::CreateReplaceInto(*sorted_by, *delete),
            DeduplicateStep::CreateUnbranchedReplaceInto(
                sorted_by,
                delete,
            ) => DeduplicateView::CreateUnbranchedReplaceInto(*sorted_by, *delete),
            DeduplicateStep::AddPipe(pipe) => DeduplicateView::AddPipe(pipe@),
        }
    }
}

/// The steps, with the fields of schemas and the items of pipes as sequences.
pub open spec fn deduplicate_views(steps: Seq<DeduplicateStep>) -> Seq<DeduplicateView> {
    steps.map_values(|s: DeduplicateStep| s@)
}

/// The text of the error that the query has more or fewer columns than the table.
pub const COLUMNS_DIFFER: &'static str =
    "The number of columns in the target table is different from the number of columns in the SELECT clause";

impl ReplaceDeduplicate {
    /// The rows come from a query that says which of them are deleted.
    pub open spec fn deletes(self) -> bool {
        self.select_ctx is Some && self.delete_when is Some
    }

    /// The columns of the query.
    pub open spec fn select_fields(self) -> Seq<FieldView>
        recommends
            self.select_ctx is Some,
    {
        self.select_ctx.unwrap().select_schema@
    }

    /// The column of the query that says which rows are deleted, if the query has it.
    pub open spec fn delete_position(self) -> Option<int>
        recommends
            self.deletes(),
    {
        field_position(self.select_fields(), self.delete_when.unwrap().column@)
    }

    /// The column that says which rows are deleted is missing.
    pub open spec fn lacks_delete_column(self) -> bool {
        self.deletes() && self.delete_position() is None
    }

    /// The number of the column that says which rows are deleted, as the processor that sorts rows
    /// is told it.
    pub open spec fn delete_index(self) -> int {
        if self.deletes() && !self.lacks_delete_column() {
            self.delete_position().unwrap()
        } else {
            0
        }
    }

    /// The columns that rows of the query are cast to: those of the table, and between them the
    /// one that says which rows are deleted, at the place where the query has it.
    pub open spec fn target_fields(self) -> Seq<FieldView> {
        if self.deletes() {
            self.table_schema@.insert(
                self.delete_index(),
                self.select_fields()[self.delete_index()],
            )
        } else {
            self.table_schema@
        }
    }

    /// The columns that the rows have in place of those of the table, if they have others.
    pub open spec fn modified_fields(self) -> Option<Seq<FieldView>> {
        if self.deletes() {
            Some(self.target_fields())
        } else {
            None
        }
    }

    /// The column that says which rows are deleted can stand between those of the table where the
    /// query has it.
    pub open spec fn delete_column_fits(self) -> bool {
        self.deletes() && !self.lacks_delete_column() ==> self.delete_index()
            <= self.table_schema@.len()
    }

    /// The query has more or fewer columns than there are to be.
    pub open spec fn columns_differ(self) -> bool {
        self.select_ctx is Some && self.target_fields().len() != self.select_fields().len()
    }

    /// The plan cannot be carried out.
    pub open spec fn is_refused(self) -> bool {
        self.lacks_delete_column() || self.columns_differ()
    }

    /// What is done for the query that the rows come from.
    pub open spec fn select_steps(self) -> Seq<DeduplicateView> {
        if self.select_ctx is None {
            Seq::empty()
        } else {
            let projection = DeduplicateView::ResultProjection(
                self.select_ctx.unwrap().select_column_bindings,
            );
            let source = self.select_fields();
            let target = self.target_fields();
            if self.lacks_delete_column() {
                seq![
                    projection,
                    DeduplicateView::Fail(
                        ErrorKind::UnknownColumn,
                        self.delete_when.unwrap().column@,
                        None,
                    ),
                ]
            } else if self.columns_differ() {
                seq![
                    projection,
                    DeduplicateView::Fail(ErrorKind::BadArguments, COLUMNS_DIFFER@, None),
                ]
            } else if source != target {
                seq![
                    projection,
                    DeduplicateView::AddTransform(TransformView::CastSchema { source, target }),
                ]
            } else {
                seq![projection]
            }
        }
    }

    /// What the processor that sorts rows is told of the table.
    pub open spec fn sorted_by(self) -> SortedBy {
        SortedBy {
            on_conflicts: self.on_conflicts,
            bloom_filter_column_indexes: self.bloom_filter_column_indexes,
            table_schema: self.table_schema,
            table_is_empty: self.table_is_empty,
            table_level_range_index: self.table_level_range_index,
        }
    }

    /// How the processor that sorts rows is made.
    pub open spec fn create_step(self) -> DeduplicateView {
        let index = self.delete_index() as usize;
        if self.need_insert {
            DeduplicateView::CreateReplaceInto(
                self.sorted_by(),
                match self.delete_when {
                    Some(delete) => Some((delete.expr, index)),
                    None => None,
                },
            )
        } else {
            DeduplicateView::CreateUnbranchedReplaceInto(
                self.sorted_by(),
                match self.delete_when {
                    Some(_) => Some(index),
                    None => None,
                },
            )
        }
    }

    /// The pipe of the processor that sorts rows.
    pub open spec fn sorting_pipe(self) -> PipeView {
        if self.need_insert {
            PipeView { input_length: 1, output_length: 2, items: seq![PipeItem::ReplaceInto] }
        } else {
            PipeView {
                input_length: 1,
                output_length: 1,
                items: seq![PipeItem::UnbranchedReplaceInto],
            }
        }
    }

    /// What is done once the rows are there.
    pub open spec fn sorting_steps(self) -> Seq<DeduplicateView> {
        seq![
            DeduplicateView::ClusterGen(self.modified_fields()),
            DeduplicateView::Resize(1),
            self.create_step(),
            DeduplicateView::AddPipe(self.sorting_pipe()),
        ]
    }

    /// What is done, in order.
    pub open spec fn steps(self, table: Table) -> Seq<DeduplicateView> {
        let first = seq![DeduplicateView::BuildInput] + self.select_steps();
        if self.is_refused() {
            first
        } else {
            first + transform_steps(fill_steps(table, self.table_schema@)) + self.sorting_steps()
        }
    }
}

/// The steps that add those transforms.
pub open spec fn transform_steps(transforms: Seq<TransformView>) -> Seq<DeduplicateView> {
    transforms.map_values(|t: TransformView| DeduplicateView::AddTransform(t))
}

fn push_step(steps: &mut Vec<DeduplicateStep>, step: DeduplicateStep)
    ensures
        deduplicate_views(final(steps)@) == deduplicate_views(old(steps)@).push(step@),
{
    let ghost before = steps@;
    steps.push(step);
    assert(deduplicate_views(steps@) =~= deduplicate_views(before).push(step@));
}

fn push_transforms(steps: &mut Vec<DeduplicateStep>, transforms: Vec<Transform>)
    ensures
        deduplicate_views(final(steps)@) == deduplicate_views(old(steps)@) + transform_steps(
            transform_views(transforms@),
        ),
{
    let ghost before = deduplicate_views(steps@);
    let ghost all = transform_steps(transform_views(transforms@));
    assert(before =~= before + all.take(0));
    for transform in it: transforms
        invariant
            it.seq() == transforms@,
            all == transform_steps(transform_views(transforms@)),
            deduplicate_views(steps@) == before + all.take(it.index() as int),
    {
        let ghost k = it.index() as int;
        assert(all[k] == DeduplicateView::AddTransform(transform@));
        push_step(steps, DeduplicateStep::AddTransform(transform));
        assert(deduplicate_views(steps@) =~= before + all.take(k + 1));
    }
    assert(all.take(all.len() as int) =~= all);
}

/// Adds what is done once the rows are there.
fn push_sorting(
    steps: &mut Vec<DeduplicateStep>,
    deduplicate: &ReplaceDeduplicate,
    opt_modified_schema: Option<Arc<DataSchema>>,
    delete_column_idx: usize,
)
    requires
        schema_view(opt_modified_schema) == deduplicate.modified_fields(),
        delete_column_idx == deduplicate.delete_index(),
    ensures
        deduplicate_views(final(steps)@) == deduplicate_views(old(steps)@)
            + deduplicate.sorting_steps(),
{
    let ghost plan = *deduplicate;
    let ghost filled = deduplicate_views(steps@);
    push_step(steps, DeduplicateStep::ClusterGen(opt_modified_schema));
    // Rows are told apart from all others, so all must come the same way.
    push_step(steps, DeduplicateStep::Resize(1));
    let sorted_by = SortedBy {
        on_conflicts: deduplicate.on_conflicts.clone(),
        bloom_filter_column_indexes: deduplicate.bloom_filter_column_indexes.clone(),
        table_schema: deduplicate.table_schema.clone(),
        table_is_empty: deduplicate.table_is_empty,
        table_level_range_index: deduplicate.table_level_range_index.clone(),
    };
    let mut items: Vec<PipeItem> = Vec::new();
    if deduplicate.need_insert {
        let delete = match &deduplicate.delete_when {
            Some(delete_when) => Some((delete_when.expr.clone(), delete_column_idx)),
            None => None,
        };
        push_step(steps, DeduplicateStep::CreateReplaceInto(sorted_by, delete));
        items.push(PipeItem::ReplaceInto);
        let pipe = Pipe::create(1, 2, items);
        assert(pipe@ =~= plan.sorting_pipe());
        push_step(steps, DeduplicateStep::AddPipe(pipe));
    } else {
        let delete = match &deduplicate.delete_when {
            Some(_) => Some(delete_column_idx),
            None => None,
        };
        push_step(steps, DeduplicateStep::CreateUnbranchedReplaceInto(sorted_by, delete));
        items.push(PipeItem::UnbranchedReplaceInto);
        let pipe = Pipe::create(1, 1, items);
        assert(pipe@ =~= plan.sorting_pipe());
        push_step(steps, DeduplicateStep::AddPipe(pipe));
    }
    assert(deduplicate_views(steps@) =~= filled + plan.sorting_steps());
}

impl PipelineBuilder {
    /// Rows that have the first columns need to be cast to have the second.
    pub fn check_schema_cast(select_schema: &DataSchema, output_schema: &DataSchema) -> (r: Result<
        bool,
        ErrorCode,
    >)
        ensures
            r == Ok::<bool, ErrorCode>(select_schema@ != output_schema@),
    {
        let cast_needed = !select_schema.same(output_schema);
        Ok(cast_needed)
    }

    /// What is done, in order, to build the pipeline that sorts rows into those to insert into
    /// the table and those to merge. It ends at the first step that fails.
    pub fn build_deduplicate(deduplicate: &ReplaceDeduplicate, table: &Table) -> (r: Vec<
        DeduplicateStep,
    >)
        requires
            deduplicate.delete_column_fits(),
        ensures
            deduplicate_views(r@) == deduplicate.steps(*table),
    {
        let ghost plan = *deduplicate;
        let mut steps: Vec<DeduplicateStep> = Vec::new();
        let mut delete_column_idx: usize = 0;
        let mut opt_modified_schema: Option<Arc<DataSchema>> = None;
        assert(deduplicate_views(steps@) =~= Seq::empty());
        push_step(&mut steps, DeduplicateStep::BuildInput);
        let ghost first = seq![DeduplicateView::BuildInput] + plan.select_steps();
        match &deduplicate.select_ctx {
            Some(select_ctx) => {
                push_step(
                    &mut steps,
                    DeduplicateStep::ResultProjection(select_ctx.select_column_bindings.clone()),
                );
                let mut target = deduplicate.table_schema.to_data_schema();
                match &deduplicate.delete_when {
                    Some(delete_when) => {
                        match select_ctx.select_schema.index_of(&delete_when.column) {
                            Some(index) => {
                                delete_column_idx = index;
                                let ghost before = target@;
                                let delete_column =
                                    select_ctx.select_schema.fields[index].copied();
                                target.fields.insert(index, delete_column);
                                assert(target@ =~= before.insert(index as int, delete_column@));
                            },
                            None => {
                                push_step(
                                    &mut steps,
                                    DeduplicateStep::Fail(unknown_column(&delete_when.column)),
                                );
                                assert(deduplicate_views(steps@) =~= first);
                                return steps;
                            },
                        }
                        opt_modified_schema = Some(Arc::new(target.copied()));
                    },
                    None => {},
                }
                assert(target@ == plan.target_fields());
                let target_schema = Arc::new(target);
                let select_schema = select_ctx.select_schema.clone();
                if target_schema.fields.len() != select_schema.fields.len() {
                    push_step(
                        &mut steps,
                        DeduplicateStep::Fail(
                            ErrorCode::create(ErrorKind::BadArguments, COLUMNS_DIFFER),
                        ),
                    );
                    assert(deduplicate_views(steps@) =~= first);
                    return steps;
                }
                let cast_needed = match Self::check_schema_cast(&select_schema, &target_schema) {
                    Ok(cast_needed) => cast_needed,
                    Err(_) => false,
                };
                if cast_needed {
                    push_step(
                        &mut steps,
                        DeduplicateStep::AddTransform(
                            Transform::CastSchema { source: select_schema, target: target_schema },
                        ),
                    );
                }
            },
            None => {},
        }
        assert(deduplicate_views(steps@) =~= first);
        assert(schema_view(opt_modified_schema) == plan.modified_fields());
        let source_schema = Arc::new(deduplicate.table_schema.to_data_schema());
        push_transforms(
            &mut steps,
            Self::build_fill_missing_columns_pipeline(table, &source_schema),
        );
        push_sorting(&mut steps, deduplicate, opt_modified_schema, delete_column_idx);
        steps
    }
}

/// The columns that rows of the query are cast to have the column that says which rows are deleted
/// at the place where the query has it, and without it they are those of the table.
pub proof fn law_target_is_the_table_and_the_delete_column(plan: ReplaceDeduplicate)
    requires
        plan.deletes(),
        plan.delete_column_fits(),
        !plan.lacks_delete_column(),
    ensures
        plan.target_fields()[plan.delete_index()] == plan.select_fields()[plan.delete_index()],
        plan.target_fields()[plan.delete_index()].name == plan.delete_when.unwrap().column@,
        plan.target_fields().remove(plan.delete_index()) == plan.table_schema@,
{
    lemma_field_position_in_range(plan.select_fields(), plan.delete_when.unwrap().column@);
    assert(plan.target_fields().remove(plan.delete_index()) =~= plan.table_schema@);
}

/// Rows of a query go on only where the query has as many columns as the table, and one more where
/// it says which rows are deleted.
pub proof fn law_columns_are_counted(plan: ReplaceDeduplicate)
    requires
        plan.select_ctx is Some,
        plan.delete_column_fits(),
    ensures
        !plan.is_refused() <==> !plan.lacks_delete_column() && plan.select_fields().len()
            == plan.table_schema@.len() + (if plan.delete_when is Some {
            1int
        } else {
            0int
        }),
{
    if plan.deletes() && !plan.lacks_delete_column() {
        lemma_field_position_in_range(plan.select_fields(), plan.delete_when.unwrap().column@);
    }
}

/// A plan that is refused ends with an error, before anything is added that sorts rows.
pub proof fn law_refused_plan_fails(plan: ReplaceDeduplicate, table: Table)
    ensures
        plan.is_refused() <==> plan.steps(table).last() is Fail,
        plan.is_refused() ==> forall|k: int|
            0 <= k < plan.steps(table).len() ==> !(#[trigger] plan.steps(table)[k] is AddPipe),
{
}

/// The pipe that sorts rows comes last, and has as many inputs and outputs as its item; the
/// pipeline was brought to one output for it.
pub proof fn law_sorting_pipe_comes_last(plan: ReplaceDeduplicate, table: Table)
    requires
        !plan.is_refused(),
    ensures
        plan.steps(table).last() == DeduplicateView::AddPipe(plan.sorting_pipe()),
        plan.sorting_pipe().fits(),
        plan.steps(table)[plan.steps(table).len() - 3] == DeduplicateView::Resize(1),
        plan.sorting_pipe().input_length == 1,
{
    reveal_with_fuel(total_inputs, 2);
    reveal_with_fuel(total_outputs, 2);
}

/// What merges rows takes as many outputs as what sorts them gives, where both plans agree on
/// whether rows are inserted.
pub proof fn law_sorting_connects_to_merging(
    plan: ReplaceDeduplicate,
    replace: ReplaceInto,
    partitions: nat,
    max_threads: u64,
)
    requires
        plan.need_insert == replace.need_insert,
        replace.need_insert || partitions > 0,
    ensures
        plan.sorting_pipe().output_length == added_pipes(
            pipe_steps(replace, partitions, max_threads),
        )[0].input_length,
{
    law_pipes_connect(replace, partitions, max_threads);
}

} // verus!
