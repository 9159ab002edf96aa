//! Fields and schemas, of a table and of the blocks that flow through a pipeline.

use vstd::prelude::*;

use crate::exception::{ErrorCode, ErrorKind};

verus! {

/// How the value of a computed column comes about.
#[derive(Debug)]
pub enum ComputedExpr {
    /// Computed when the column is read.
    Virtual(String),
    /// Computed when a row is written, and kept with it.
    Stored(String),
}

/// A `ComputedExpr` with its text as characters.
pub enum ComputedView {
    Virtual(Seq<char>),
    Stored(Seq<char>),
}

impl View for ComputedExpr {
    type V = ComputedView;

    open spec fn view(&self) -> ComputedView {
        match self {
            ComputedExpr::Virtual(text) => ComputedView::Virtual(text@),
            ComputedExpr::Stored(text) => ComputedView::Stored(text@),
        }
    }
}

/// A field of a schema. The data type is held by its name in SQL.
#[derive(Debug)]
pub struct DataField {
    pub name: String,
    pub data_type: String,
    pub default_expr: Option<String>,
    pub computed_expr: Option<ComputedExpr>,
}

/// A `DataField` with its texts as characters.
#[verifier::ext_equal]
pub struct FieldView {
    pub name: Seq<char>,
    pub data_type: Seq<char>,
    pub default_expr: Option<Seq<char>>,
    pub computed_expr: Option<ComputedView>,
}

/// The characters of a text, if there is one.
pub open spec fn text_view(text: Option<String>) -> Option<Seq<char>> {
    match text {
        Some(t) => Some(t@),
        None => None,
    }
}

/// A computed expression with its text as characters, if there is one.
pub open spec fn computed_view(computed: Option<ComputedExpr>) -> Option<ComputedView> {
    match computed {
        Some(c) => Some(c@),
        None => None,
    }
}

impl View for DataField {
    type V = FieldView;

    open spec fn view(&self) -> FieldView {
        FieldView {
            name: self.name@,
            data_type: self.data_type@,
            default_expr: text_view(self.default_expr),
            computed_expr: computed_view(self.computed_expr),
        }
    }
}

fn same_text(a: &Option<String>, b: &Option<String>) -> (r: bool)
    ensures
        r == (text_view(*a) == text_view(*b)),
{
    match a {
        Some(x) => match b {
            Some(y) => *x == *y,
            None => false,
        },
        None => b.is_none(),
    }
}

fn same_computed(a: &Option<ComputedExpr>, b: &Option<ComputedExpr>) -> (r: bool)
    ensures
        r == (computed_view(*a) == computed_view(*b)),
{
    match a {
        Some(ComputedExpr::Virtual(x)) => match b {
            Some(ComputedExpr::Virtual(y)) => *x == *y,
            _ => false,
        },
        Some(ComputedExpr::Stored(x)) => match b {
            Some(ComputedExpr::Stored(y)) => *x == *y,
            _ => false,
        },
        None => b.is_none(),
    }
}

impl DataField {
    /// The two fields agree in name, type, default and computed expression.
    pub fn same(&self, other: &DataField) -> (r: bool)
        ensures
            r == (self@ == other@),
    {
        self.name == other.name && self.data_type == other.data_type && same_text(
            &self.default_expr,
            &other.default_expr,
        ) && same_computed(&self.computed_expr, &other.computed_expr)
    }

    /// A copy of the field.
    pub fn copied(&self) -> (r: DataField)
        ensures
            r@ == self@,
    {
        DataField {
            name: self.name.clone(),
            data_type: self.data_type.clone(),
            default_expr: match &self.default_expr {
                Some(text) => Some(text.clone()),
                None => None,
            },
            computed_expr: match &self.computed_expr {
                Some(ComputedExpr::Virtual(text)) => Some(ComputedExpr::Virtual(text.clone())),
                Some(ComputedExpr::Stored(text)) => Some(ComputedExpr::Stored(text.clone())),
                None => None,
            },
        }
    }
}

/// The fields of a schema, with their texts as characters.
pub open spec fn field_views(fields: Seq<DataField>) -> Seq<FieldView> {
    fields.map_values(|f: DataField| f@)
}

/// `i` is the first field of that name.
pub open spec fn is_first_named(fields: Seq<FieldView>, name: Seq<char>, i: int) -> bool {
    &&& 0 <= i < fields.len()
    &&& fields[i].name == name
    &&& forall|j: int| 0 <= j < i ==> (#[trigger] fields[j]).name != name
}

/// No field has that name.
pub open spec fn has_no_field(fields: Seq<FieldView>, name: Seq<char>) -> bool {
    forall|j: int| 0 <= j < fields.len() ==> (#[trigger] fields[j]).name != name
}

/// The position of the first field of that name, if there is one.
pub open spec fn field_position(fields: Seq<FieldView>, name: Seq<char>) -> Option<int> {
    if has_no_field(fields, name) {
        None
    } else {
        Some(choose|i: int| is_first_named(fields, name, i))
    }
}

/// A name has at most one first field, and the position is that one.
pub proof fn lemma_field_position(fields: Seq<FieldView>, name: Seq<char>, i: int)
    requires
        is_first_named(fields, name, i),
    ensures
        field_position(fields, name) == Some(i),
{
    assert(!has_no_field(fields, name)) by {
        assert(fields[i].name == name);
    }
    let j = choose|j: int| is_first_named(fields, name, j);
    assert(fields[i].name == name && fields[j].name == name);
}

/// A position that there is lies within the fields.
pub proof fn lemma_field_position_in_range(fields: Seq<FieldView>, name: Seq<char>)
    requires
        field_position(fields, name) is Some,
    ensures
        is_first_named(fields, name, field_position(fields, name).unwrap()),
{
    let j = choose|j: int| 0 <= j < fields.len() && (#[trigger] fields[j]).name == name;
    lemma_first_named_up_to(fields, name, j);
}

/// Where there is a field of that name there is a first one.
proof fn lemma_first_named_up_to(fields: Seq<FieldView>, name: Seq<char>, j: int)
    requires
        0 <= j < fields.len(),
        fields[j].name == name,
    ensures
        exists|i: int| is_first_named(fields, name, i),
    decreases j,
{
    if exists|k: int| 0 <= k < j && (#[trigger] fields[k]).name == name {
        let k = choose|k: int| 0 <= k < j && (#[trigger] fields[k]).name == name;
        lemma_first_named_up_to(fields, name, k);
    } else {
        assert(is_first_named(fields, name, j));
    }
}

/// The schema of the blocks that flow through a pipeline.
#[derive(Debug)]
pub struct DataSchema {
    pub fields: Vec<DataField>,
}

impl View for DataSchema {
    type V = Seq<FieldView>;

    open spec fn view(&self) -> Seq<FieldView> {
        field_views(self.fields@)
    }
}

fn copied_fields(fields: &Vec<DataField>) -> (r: Vec<DataField>)
    ensures
        field_views(r@) == field_views(fields@),
{
    let mut r: Vec<DataField> = Vec::with_capacity(fields.len());
    let mut i: usize = 0;
    while i < fields.len()
        invariant
            i <= fields.len(),
            field_views(r@) == field_views(fields@).take(i as int),
        decreases fields.len() - i,
    {
        let ghost before = field_views(r@);
        r.push(fields[i].copied());
        assert(field_views(r@) =~= before.push(field_views(fields@)[i as int]));
        i = i + 1;
        assert(field_views(r@) =~= field_views(fields@).take(i as int));
    }
    assert(field_views(fields@).take(fields.len() as int) =~= field_views(fields@));
    r
}

impl DataSchema {
    /// The position of the first field of that name.
    pub fn index_of(&self, name: &String) -> (r: Option<usize>)
        ensures
            match r {
                Some(i) => is_first_named(self@, name@, i as int) && field_position(self@, name@)
                    == Some(i as int),
                None => has_no_field(self@, name@),
            },
    {
        let mut i: usize = 0;
        while i < self.fields.len()
            invariant
                i <= self.fields.len(),
                forall|j: int| 0 <= j < i ==> (#[trigger] self@[j]).name != name@,
            decreases self.fields.len() - i,
        {
            assert(self@[i as int].name == self.fields@[i as int].name@);
            if self.fields[i].name == *name {
                proof {
                    lemma_field_position(self@, name@, i as int);
                }
                return Some(i);
            }
            i = i + 1;
        }
        None
    }

    /// The two schemas have the same fields in the same order.
    pub fn same(&self, other: &DataSchema) -> (r: bool)
        ensures
            r == (self@ == other@),
    {
        if self.fields.len() != other.fields.len() {
            assert(self@.len() != other@.len());
            return false;
        }
        let mut i: usize = 0;
        while i < self.fields.len()
            invariant
                i <= self.fields.len(),
                self.fields.len() == other.fields.len(),
                forall|j: int| 0 <= j < i ==> #[trigger] self@[j] == other@[j],
            decreases self.fields.len() - i,
        {
            if !self.fields[i].same(&other.fields[i]) {
                assert(self@[i as int] != other@[i as int]);
                return false;
            }
            assert(self@[i as int] == other@[i as int]);
            i = i + 1;
        }
        assert(self@ =~= other@);
        true
    }

    /// A copy of the schema.
    pub fn copied(&self) -> (r: DataSchema)
        ensures
            r@ == self@,
    {
        DataSchema { fields: copied_fields(&self.fields) }
    }
}

/// The schema of a table.
#[derive(Debug)]
pub struct TableSchema {
    pub fields: Vec<DataField>,
}

impl View for TableSchema {
    type V = Seq<FieldView>;

    open spec fn view(&self) -> Seq<FieldView> {
        field_views(self.fields@)
    }
}

/// The fields that are not computed, in their order.
pub open spec fn without_computed(fields: Seq<FieldView>) -> Seq<FieldView> {
    fields.filter(|f: FieldView| f.computed_expr is None)
}

/// The fields that are kept with a row, in their order: all but the virtual computed ones.
pub open spec fn without_virtual_computed(fields: Seq<FieldView>) -> Seq<FieldView> {
    fields.filter(|f: FieldView| !(f.computed_expr matches Some(ComputedView::Virtual(_))))
}

/// Filtering one element more adds it at the end, or leaves it out.
proof fn lemma_filter_take(s: Seq<FieldView>, keep: spec_fn(FieldView) -> bool, i: int)
    requires
        0 <= i < s.len(),
    ensures
        s.take(i + 1).filter(keep) == if keep(s[i]) {
            s.take(i).filter(keep).push(s[i])
        } else {
            s.take(i).filter(keep)
        },
{
    reveal(Seq::filter);
    assert(s.take(i + 1).drop_last() =~= s.take(i));
}

impl TableSchema {
    /// The fields that hold neither a stored nor a virtual computed column.
    pub fn remove_computed_fields(&self) -> (r: TableSchema)
        ensures
            r@ == without_computed(self@),
    {
        let mut fields: Vec<DataField> = Vec::new();
        let ghost keep = |f: FieldView| f.computed_expr is None;
        let mut i: usize = 0;
        proof {
            reveal(Seq::filter);
            assert(field_views(fields@) =~= self@.take(0).filter(keep));
        }
        while i < self.fields.len()
            invariant
                i <= self.fields.len(),
                keep == (|f: FieldView| f.computed_expr is None),
                field_views(fields@) == self@.take(i as int).filter(keep),
            decreases self.fields.len() - i,
        {
            let ghost before = field_views(fields@);
            proof {
                lemma_filter_take(self@, keep, i as int);
            }
            if self.fields[i].computed_expr.is_none() {
                fields.push(self.fields[i].copied());
                assert(field_views(fields@) =~= before.push(self@[i as int]));
            }
            i = i + 1;
        }
        assert(self@.take(self@.len() as int) =~= self@);
        TableSchema { fields }
    }

    /// The fields that do not hold a virtual computed column.
    pub fn remove_virtual_computed_fields(&self) -> (r: TableSchema)
        ensures
            r@ == without_virtual_computed(self@),
    {
        let mut fields: Vec<DataField> = Vec::new();
        let ghost keep = |f: FieldView|
            !(f.computed_expr matches Some(ComputedView::Virtual(_)));
        let mut i: usize = 0;
        proof {
            reveal(Seq::filter);
            assert(field_views(fields@) =~= self@.take(0).filter(keep));
        }
        while i < self.fields.len()
            invariant
                i <= self.fields.len(),
                keep == (|f: FieldView|
                    !(f.computed_expr matches Some(ComputedView::Virtual(_)))),
                field_views(fields@) == self@.take(i as int).filter(keep),
            decreases self.fields.len() - i,
        {
            let ghost before = field_views(fields@);
            proof {
                lemma_filter_take(self@, keep, i as int);
            }
            let dropped = match &self.fields[i].computed_expr {
                Some(ComputedExpr::Virtual(_)) => true,
                _ => false,
            };
            if !dropped {
                fields.push(self.fields[i].copied());
                assert(field_views(fields@) =~= before.push(self@[i as int]));
            }
            i = i + 1;
        }
        assert(self@.take(self@.len() as int) =~= self@);
        TableSchema { fields }
    }

    /// The schema of the blocks that hold rows of the table.
    pub fn to_data_schema(&self) -> (r: DataSchema)
        ensures
            r@ == self@,
    {
        DataSchema { fields: copied_fields(&self.fields) }
    }
}

/// The error that there is no column of that name. Its text is the name alone: whoever looks columns
/// up for a user says in which words that is put.
pub fn unknown_column(name: &String) -> (r: ErrorCode)
    ensures
        r.says(ErrorKind::UnknownColumn, name@),
{
    ErrorCode::create(ErrorKind::UnknownColumn, name.as_str())
}

} // verus!
