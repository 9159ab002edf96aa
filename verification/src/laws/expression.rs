//! Laws on numbers in messages, values, schemas and blocks.

use vstd::prelude::*;

use crate::exception::{ErrorCode, ErrorKind, Span};
use crate::expression::block::{
    column_cell, slice_rows, take_column_by_slices, ColumnRef, DataBlock,
};
use crate::expression::schema::{
    field_position, field_views, lemma_field_position, unknown_column, ComputedExpr, ComputedView,
    DataField, DataSchema, FieldView, TableSchema,
};
use crate::expression::value::{cell_view, copied_cell, Cell, Value};
use crate::pipeline::builder::PipelineBuilder;
use crate::text::{append_decimal, decimal, digit};

verus! {

/// The number that a text of digits stands for.
pub open spec fn number_of(text: Seq<char>) -> nat
    decreases text.len(),
{
    if text.len() == 0 {
        0
    } else {
        10 * number_of(text.drop_last()) + (text.last() as nat - '0' as nat) as nat
    }
}

/// A number is written with digits alone, that stand for it, and without a zero in front.
pub proof fn law_decimal_stands_for_the_number(n: nat)
    ensures
        number_of(decimal(n)) == n,
        decimal(n).len() > 0,
        forall|k: int| 0 <= k < decimal(n).len() ==> '0' <= #[trigger] decimal(n)[k] <= '9',
        n > 0 ==> decimal(n)[0] != '0',
    decreases n,
{
    reveal_with_fuel(number_of, 2);
    if n < 10 {
        assert(decimal(n) =~= seq![digit(n)]);
        assert(decimal(n).drop_last() =~= Seq::empty());
    } else {
        law_decimal_stands_for_the_number(n / 10);
        let front = decimal(n / 10);
        assert(decimal(n) =~= front.push(digit(n % 10)));
        assert(decimal(n).drop_last() =~= front);
        assert forall|k: int| 0 <= k < decimal(n).len() implies '0' <= #[trigger] decimal(n)[k]
            <= '9' by {
            if k < front.len() {
                assert(decimal(n)[k] == front[k]);
            }
        }
        assert(decimal(n)[0] == front[0]);
    }
}

/// A number is written behind what the text held, which stays.
pub proof fn law_number_is_written_at_the_end(out: &mut String, n: u64)
    requires
        call_ensures(append_decimal, (out, n), ()),
    ensures
        final(out)@.len() > old(out)@.len(),
        final(out)@.take(old(out)@.len() as int) == old(out)@,
        number_of(final(out)@.skip(old(out)@.len() as int)) == n,
{
    law_decimal_stands_for_the_number(n as nat);
    assert(final(out)@.skip(old(out)@.len() as int) =~= decimal(n as nat));
    assert(final(out)@.take(old(out)@.len() as int) =~= old(out)@);
}

/// The two texts are the same, or there is none in both places.
pub open spec fn same_text(a: Option<String>, b: Option<String>) -> bool {
    match (a, b) {
        (Some(x), Some(y)) => x@ == y@,
        (None, None) => true,
        _ => false,
    }
}

/// The two expressions are computed at the same time and have the same text, or there is none in
/// both places.
pub open spec fn same_computed(a: Option<ComputedExpr>, b: Option<ComputedExpr>) -> bool {
    match (a, b) {
        (Some(ComputedExpr::Virtual(x)), Some(ComputedExpr::Virtual(y))) => x@ == y@,
        (Some(ComputedExpr::Stored(x)), Some(ComputedExpr::Stored(y))) => x@ == y@,
        (None, None) => true,
        _ => false,
    }
}

/// The two fields agree in name, type, default and computed expression.
pub open spec fn same_field(a: DataField, b: DataField) -> bool {
    &&& a.name@ == b.name@
    &&& a.data_type@ == b.data_type@
    &&& same_text(a.default_expr, b.default_expr)
    &&& same_computed(a.computed_expr, b.computed_expr)
}

/// There are as many fields, and they agree one by one.
pub open spec fn same_fields(a: Seq<DataField>, b: Seq<DataField>) -> bool {
    &&& a.len() == b.len()
    &&& forall|k: int| 0 <= k < a.len() ==> same_field(#[trigger] a[k], b[k])
}

/// Fields have the same view exactly where they agree.
pub proof fn law_fields_are_told_apart(a: DataField, b: DataField)
    ensures
        a@ == b@ <==> same_field(a, b),
        a@.name == a.name@,
{
    let x = a@;
    let y = b@;
    if same_field(a, b) {
        assert(x.default_expr == y.default_expr);
        assert(x.computed_expr == y.computed_expr);
        assert(x == y);
    }
}

/// Lists of fields have the same views exactly where they agree.
pub proof fn law_lists_of_fields_are_told_apart(a: Seq<DataField>, b: Seq<DataField>)
    ensures
        field_views(a) == field_views(b) <==> same_fields(a, b),
{
    let x = field_views(a);
    let y = field_views(b);
    if same_fields(a, b) {
        assert forall|k: int| 0 <= k < x.len() implies #[trigger] x[k] == y[k] by {
            assert(same_field(a[k], b[k]));
            law_fields_are_told_apart(a[k], b[k]);
        }
        assert(x =~= y);
    }
    if x == y {
        assert(x.len() == a.len() && y.len() == b.len());
        assert forall|k: int| 0 <= k < a.len() implies same_field(#[trigger] a[k], b[k]) by {
            assert(x[k] == a[k]@ && y[k] == b[k]@);
            law_fields_are_told_apart(a[k], b[k]);
        }
    }
}

/// A cast is needed exactly where the schemas do not agree field by field.
pub proof fn law_cast_is_needed_where_fields_differ(
    select: DataSchema,
    output: DataSchema,
    r: Result<bool, ErrorCode>,
)
    requires
        call_ensures(PipelineBuilder::check_schema_cast, (&select, &output), r),
    ensures
        r == Ok::<bool, ErrorCode>(!same_fields(select.fields@, output.fields@)),
{
    law_lists_of_fields_are_told_apart(select.fields@, output.fields@);
}

/// `i` is where the first field of that name stands.
pub open spec fn is_first(fields: Seq<DataField>, name: Seq<char>, i: int) -> bool {
    &&& 0 <= i < fields.len()
    &&& fields[i].name@ == name
    &&& forall|j: int| 0 <= j < i ==> (#[trigger] fields[j]).name@ != name
}

/// There is no field of that name.
pub open spec fn is_absent(fields: Seq<DataField>, name: Seq<char>) -> bool {
    forall|j: int| 0 <= j < fields.len() ==> (#[trigger] fields[j]).name@ != name
}

/// The position of a name is that of the first field that has it, and there is none where no field
/// has it.
pub proof fn law_position_is_that_of_the_first(fields: Seq<DataField>, name: Seq<char>, i: int)
    ensures
        is_first(fields, name, i) ==> field_position(field_views(fields), name) == Some(i),
        is_absent(fields, name) <==> field_position(field_views(fields), name) is None,
{
    let views = field_views(fields);
    assert forall|j: int| 0 <= j < fields.len() implies #[trigger] views[j].name
        == fields[j].name@ by {}
    if is_first(fields, name, i) {
        assert forall|j: int| 0 <= j < i implies (#[trigger] views[j]).name != name by {
            assert(fields[j].name@ != name);
        }
        lemma_field_position(views, name, i);
    }
    if is_absent(fields, name) {
        assert forall|j: int| 0 <= j < views.len() implies (#[trigger] views[j]).name != name by {
            assert(fields[j].name@ != name);
        }
    } else {
        let j = choose|j: int| 0 <= j < fields.len() && (#[trigger] fields[j]).name@ == name;
        assert(views[j].name == name);
    }
}

/// A name is looked up in the fields of a schema, from the first on.
pub proof fn law_first_field_of_a_name_is_found(schema: DataSchema, name: String, r: Option<usize>)
    requires
        call_ensures(DataSchema::index_of, (&schema, &name), r),
    ensures
        match r {
            Some(i) => is_first(schema.fields@, name@, i as int),
            None => is_absent(schema.fields@, name@),
        },
{
    let views = field_views(schema.fields@);
    assert forall|j: int| 0 <= j < schema.fields@.len() implies #[trigger] views[j].name
        == schema.fields@[j].name@ by {}
    match r {
        Some(i) => {
            assert forall|j: int| 0 <= j < i implies (#[trigger] schema.fields@[j]).name@
                != name@ by {
                assert(views[j].name != name@);
            }
        },
        None => {
            assert forall|j: int| 0 <= j < schema.fields@.len() implies (
            #[trigger] schema.fields@[j]).name@ != name@ by {
                assert(views[j].name != name@);
            }
        },
    }
}

/// The error that a column is missing names it and points at no place.
pub proof fn law_missing_column_is_named(name: String, r: ErrorCode)
    requires
        call_ensures(unknown_column, (&name,), r),
    ensures
        r.kind == ErrorKind::UnknownColumn,
        r.message@ == name@,
        r.span is None,
{
}

/// `at` are the places of the fields of `whole` that are left, in their order: `part` has the same
/// fields as stand there, and no other field of `whole` is to be left.
pub open spec fn is_part_at(
    whole: Seq<DataField>,
    part: Seq<DataField>,
    plain: bool,
    at: Seq<int>,
) -> bool {
    &&& at.len() == part.len()
    &&& forall|k: int|
        #![trigger at[k]]
        0 <= k < at.len() ==> 0 <= at[k] < whole.len() && is_left(whole[at[k]], plain) && same_field(
            part[k],
            whole[at[k]],
        )
    &&& forall|k: int, l: int|
        0 <= k < l < at.len() ==> #[trigger] at[k] < #[trigger] at[l]
    &&& forall|i: int|
        0 <= i < whole.len() && is_left(#[trigger] whole[i], plain) ==> at.contains(i)
}

/// The field is not computed.
pub open spec fn is_plain(field: DataField) -> bool {
    field.computed_expr is None
}

/// The field is kept with a row.
pub open spec fn is_kept(field: DataField) -> bool {
    match field.computed_expr {
        None => true,
        Some(ComputedExpr::Stored(_)) => true,
        Some(ComputedExpr::Virtual(_)) => false,
    }
}

/// The field is left: where only plain fields are, it is not computed, and where not, it is kept
/// with a row.
pub open spec fn is_left(field: DataField, plain: bool) -> bool {
    if plain {
        is_plain(field)
    } else {
        is_kept(field)
    }
}

/// What a filter leaves of some fields are those that are to be left.
proof fn lemma_filter_is_part(
    whole: Seq<DataField>,
    part: Seq<DataField>,
    plain: bool,
    keep_view: spec_fn(FieldView) -> bool,
) -> (at: Seq<int>)
    requires
        forall|f: DataField| #[trigger] is_left(f, plain) == keep_view(f@),
        field_views(part) == field_views(whole).filter(keep_view),
    ensures
        is_part_at(whole, part, plain, at),
    decreases whole.len(),
{
    reveal(Seq::filter);
    let views = field_views(whole);
    if whole.len() == 0 {
        assert(views.filter(keep_view).len() == 0);
        assert(part.len() == field_views(part).len());
        Seq::empty()
    } else {
        let front = whole.drop_last();
        let last = whole.last();
        assert(field_views(front) =~= views.drop_last());
        assert(views.last() == last@);
        if is_left(last, plain) {
            let part_front = part.drop_last();
            assert(field_views(part) == field_views(front).filter(keep_view).push(last@));
            assert(part.len() == field_views(part).len());
            assert(field_views(part_front) =~= field_views(part).drop_last());
            assert(field_views(part).drop_last() =~= field_views(front).filter(keep_view));
            let earlier = lemma_filter_is_part(front, part_front, plain, keep_view);
            let at = earlier.push(whole.len() - 1);
            assert(field_views(part)[part.len() - 1] == part[part.len() - 1]@);
            law_fields_are_told_apart(part[part.len() - 1], last);
            assert forall|k: int|
                #![trigger at[k]]
                0 <= k < at.len() implies 0 <= at[k] < whole.len() && is_left(whole[at[k]], plain)
                && same_field(part[k], whole[at[k]]) by {
                if k < earlier.len() {
                    assert(at[k] == earlier[k]);
                    assert(part_front[k] == part[k]);
                    assert(front[earlier[k]] == whole[earlier[k]]);
                }
            }
            assert forall|i: int|
                0 <= i < whole.len() && is_left(#[trigger] whole[i], plain) implies at.contains(i) by {
                if i < front.len() {
                    assert(front[i] == whole[i]);
                    let k = choose|k: int| 0 <= k < earlier.len() && earlier[k] == i;
                    assert(at[k] == i);
                } else {
                    assert(at[at.len() - 1] == i);
                }
            }
            at
        } else {
            assert(field_views(part) == field_views(front).filter(keep_view));
            let at = lemma_filter_is_part(front, part, plain, keep_view);
            assert forall|k: int|
                #![trigger at[k]]
                0 <= k < at.len() implies 0 <= at[k] < whole.len() && is_left(whole[at[k]], plain)
                && same_field(part[k], whole[at[k]]) by {
                assert(front[at[k]] == whole[at[k]]);
            }
            assert forall|i: int|
                0 <= i < whole.len() && is_left(#[trigger] whole[i], plain) implies at.contains(i) by {
                assert(front[i] == whole[i]);
            }
            at
        }
    }
}

/// The fields that are not computed are left, all of them, in their order, and no others.
pub proof fn law_plain_fields_are_left(table: TableSchema, r: TableSchema)
    requires
        call_ensures(TableSchema::remove_computed_fields, (&table,), r),
    ensures
        exists|at: Seq<int>| is_part_at(table.fields@, r.fields@, true, at),
{
    let keep_view = |f: FieldView| f.computed_expr is None;
    let at = lemma_filter_is_part(table.fields@, r.fields@, true, keep_view);
}

/// The fields that are kept with a row are left, all of them, in their order, and no others.
pub proof fn law_kept_fields_are_left(table: TableSchema, r: TableSchema)
    requires
        call_ensures(TableSchema::remove_virtual_computed_fields, (&table,), r),
    ensures
        exists|at: Seq<int>| is_part_at(table.fields@, r.fields@, false, at),
{
    let keep_view = |f: FieldView| !(f.computed_expr matches Some(ComputedView::Virtual(_)));
    let at = lemma_filter_is_part(table.fields@, r.fields@, false, keep_view);
}

/// Rows of a table have the fields of the table.
pub proof fn law_rows_have_the_fields_of_the_table(table: TableSchema, r: DataSchema)
    requires
        call_ensures(TableSchema::to_data_schema, (&table,), r),
    ensures
        same_fields(r.fields@, table.fields@),
{
    law_lists_of_fields_are_told_apart(r.fields@, table.fields@);
}

/// The two values are the same.
pub open spec fn same_value(a: Value, b: Value) -> bool {
    match (a, b) {
        (Value::Int(x), Value::Int(y)) => x == y,
        (Value::Bytes(x), Value::Bytes(y)) => x@ == y@,
        _ => false,
    }
}

/// The two cells hold the same value, or are both null.
pub open spec fn same_cell(a: Cell, b: Cell) -> bool {
    match (a, b) {
        (Some(x), Some(y)) => same_value(x, y),
        (None, None) => true,
        _ => false,
    }
}

/// Cells have the same view exactly where they hold the same.
pub proof fn law_cells_are_told_apart(a: Cell, b: Cell)
    ensures
        cell_view(a) == cell_view(b) <==> same_cell(a, b),
        a is None <==> cell_view(a) is None,
{
    if let (Some(x), Some(y)) = (a, b) {
        if same_value(x, y) {
            assert(x@ =~= y@);
        }
        if x@ == y@ {
            match (x, y) {
                (Value::Int(i), Value::Int(j)) => {
                    assert(x@[1] == i && y@[1] == j);
                },
                (Value::Bytes(i), Value::Bytes(j)) => {
                    assert(x@.len() == i@.len() + 1 && y@.len() == j@.len() + 1);
                    assert forall|k: int| 0 <= k < i@.len() implies i@[k] == j@[k] by {
                        assert(x@[k + 1] == i@[k] && y@[k + 1] == j@[k]);
                    }
                    assert(i@ =~= j@);
                },
                (Value::Int(i), Value::Bytes(j)) => {
                    assert(x@[0] == 0 && y@[0] == 1);
                },
                (Value::Bytes(i), Value::Int(j)) => {
                    assert(x@[0] == 1 && y@[0] == 0);
                },
            }
        }
    }
}

/// A copy of a cell holds the same.
pub proof fn law_copy_holds_the_same(cell: Cell, r: Cell)
    requires
        call_ensures(copied_cell, (&cell,), r),
    ensures
        same_cell(r, cell),
{
    law_cells_are_told_apart(r, cell);
}

/// Where one slice is taken, its cells are those of the column from the first row of the slice on,
/// as many as the slice has.
pub proof fn law_slice_is_taken(
    columns: Vec<ColumnRef>,
    slices: Vec<(usize, usize, usize)>,
    r: Vec<Cell>,
    k: int,
)
    requires
        call_ensures(take_column_by_slices, (&columns, &slices), r),
        slices@.len() == 1,
        0 <= k < r@.len(),
    ensures
        r@.len() == slices@[0].2,
        same_cell(r@[k], columns@[slices@[0].0 as int]@[slices@[0].1 + k]),
{
    reveal_with_fuel(slice_rows, 2);
    assert(slices@.drop_last() =~= Seq::empty());
    assert(slice_rows(slices@)[k] == (slices@[0].0 as int, slices@[0].1 + k));
    assert(cell_view(r@[k]) == column_cell(columns@[slices@[0].0 as int], slices@[0].1 + k));
    law_cells_are_told_apart(r@[k], columns@[slices@[0].0 as int]@[slices@[0].1 + k]);
}

/// Slices are taken one after the other: what is taken by a list and then by another is what is
/// taken by both together.
pub proof fn law_slices_are_taken_in_turn(
    columns: Vec<ColumnRef>,
    first: Vec<(usize, usize, usize)>,
    second: Vec<(usize, usize, usize)>,
    both: Vec<(usize, usize, usize)>,
    r1: Vec<Cell>,
    r2: Vec<Cell>,
    r: Vec<Cell>,
    k: int,
)
    requires
        both@ == first@ + second@,
        call_ensures(take_column_by_slices, (&columns, &first), r1),
        call_ensures(take_column_by_slices, (&columns, &second), r2),
        call_ensures(take_column_by_slices, (&columns, &both), r),
        0 <= k < r@.len(),
    ensures
        r@.len() == r1@.len() + r2@.len(),
        same_cell(
            r@[k],
            if k < r1@.len() {
                r1@[k]
            } else {
                r2@[k - r1@.len()]
            },
        ),
{
    lemma_slice_rows_add(first@, second@);
    let rows = slice_rows(both@);
    assert(cell_view(r@[k]) == column_cell(columns@[rows[k].0], rows[k].1));
    if k < r1@.len() {
        assert(rows[k] == slice_rows(first@)[k]);
        assert(cell_view(r1@[k]) == cell_view(r@[k]));
        law_cells_are_told_apart(r@[k], r1@[k]);
    } else {
        assert(rows[k] == slice_rows(second@)[k - r1@.len()]);
        assert(cell_view(r2@[k - r1@.len()]) == cell_view(r@[k]));
        law_cells_are_told_apart(r@[k], r2@[k - r1@.len()]);
    }
}

proof fn lemma_slice_rows_add(
    first: Seq<(usize, usize, usize)>,
    second: Seq<(usize, usize, usize)>,
)
    ensures
        slice_rows(first + second) == slice_rows(first) + slice_rows(second),
    decreases second.len(),
{
    if second.len() == 0 {
        assert(first + second =~= first);
        assert(slice_rows(first) + slice_rows(second) =~= slice_rows(first));
    } else {
        lemma_slice_rows_add(first, second.drop_last());
        assert((first + second).drop_last() =~= first + second.drop_last());
        assert((first + second).last() == second.last());
        assert(slice_rows(first + second) =~= slice_rows(first) + slice_rows(second));
    }
}

/// A column is found by the first field of its name.
pub proof fn law_column_is_found_by_name(
    block: DataBlock,
    name: String,
    r: Option<ColumnRef>,
    i: int,
)
    requires
        call_ensures(DataBlock::column_by_name, (&block, &name), r),
    ensures
        is_first(block.schema.fields@, name@, i) ==> r == Some(block.columns@[i]),
        is_absent(block.schema.fields@, name@) ==> r is None,
{
    law_position_is_that_of_the_first(block.schema.fields@, name@, i);
}

/// Two fields are found to be the same exactly where they agree, and two schemas where their fields
/// do.
pub proof fn law_fields_are_the_same_where_they_agree(
    a: DataField,
    b: DataField,
    same_name: bool,
    x: DataSchema,
    y: DataSchema,
    same_schema: bool,
)
    requires
        call_ensures(DataField::same, (&a, &b), same_name),
        call_ensures(DataSchema::same, (&x, &y), same_schema),
    ensures
        same_name <==> same_field(a, b),
        same_schema <==> same_fields(x.fields@, y.fields@),
{
    law_fields_are_told_apart(a, b);
    law_lists_of_fields_are_told_apart(x.fields@, y.fields@);
}

/// A block has as many rows as its columns have cells, and one without columns has none.
pub proof fn law_rows_are_counted(block: DataBlock, n: usize, none: bool, c: int)
    requires
        block.wf(),
        call_ensures(DataBlock::num_rows, (&block,), n),
        call_ensures(DataBlock::is_empty, (&block,), none),
    ensures
        block.columns@.len() == 0 ==> n == 0,
        0 <= c < block.columns@.len() ==> n == block.columns@[c]@.len(),
        none <==> n == 0,
{
}

/// An error says what it is given to say, and points at a place once it was told one.
pub proof fn law_error_says_what_it_is_given(
    kind: ErrorKind,
    message: &str,
    made: ErrorCode,
    span: Span,
    pointing: ErrorCode,
)
    requires
        call_ensures(ErrorCode::create, (kind, message), made),
        call_ensures(ErrorCode::set_span, (made, span), pointing),
    ensures
        made.kind == kind && made.message@ == message@ && made.span is None,
        pointing.kind == kind && pointing.message@ == message@ && pointing.span == span,
{
}

} // verus!
