use std::cmp::Ordering;
use std::sync::Arc;

use databend_query::exception::{ErrorCode, ErrorKind, Range};
use databend_query::expression::block::{take_column_by_slices, DataBlock};
use databend_query::expression::schema::{
    unknown_column, ComputedExpr, DataField, DataSchema, TableSchema,
};
use databend_query::expression::value::{Cell, Value};
use databend_query::text::append_decimal;

fn field(name: &str) -> DataField {
    DataField {
        name: name.to_string(),
        data_type: "INT".to_string(),
        default_expr: Some("1".to_string()),
        computed_expr: None,
    }
}

fn ints(values: &[i128]) -> Arc<Vec<Cell>> {
    Arc::new(values.iter().map(|v| Some(Value::Int(*v))).collect())
}

#[test]
fn numbers_are_written_in_decimal() {
    for n in [0, 7, 10, 909, u64::MAX] {
        let mut text = "n = ".to_string();
        append_decimal(&mut text, n);
        assert_eq!(text, format!("n = {}", n));
    }
}

#[test]
fn values_are_compared() {
    assert_eq!(Value::Int(-3).compare(&Value::Int(2)), Ordering::Less);
    assert_eq!(Value::Int(2).compare(&Value::Int(2)), Ordering::Equal);
    let bytes = |b: &[u8]| Value::Bytes(b.to_vec());
    assert_eq!(bytes(b"ab").compare(&bytes(b"a")), Ordering::Greater);
    assert_eq!(bytes(b"ab").compare(&bytes(b"b")), Ordering::Less);
}

#[test]
fn fields_are_found_by_name() {
    let schema = DataSchema { fields: vec![field("a"), field("b"), field("a")] };
    assert_eq!(schema.index_of(&"a".to_string()), Some(0));
    assert_eq!(schema.index_of(&"b".to_string()), Some(1));
    assert_eq!(schema.index_of(&"c".to_string()), None);
    let e = unknown_column(&"c".to_string());
    assert_eq!((e.kind, e.message.as_str()), (ErrorKind::UnknownColumn, "c"));
}

#[test]
fn schemas_are_the_same_field_by_field() {
    let schema = DataSchema { fields: vec![field("a"), field("b")] };
    assert!(schema.same(&schema.copied()));
    assert!(!schema.same(&DataSchema { fields: vec![field("b"), field("a")] }));
    assert!(!schema.same(&DataSchema { fields: vec![field("a")] }));
    let other = DataField { data_type: "STRING".to_string(), ..field("b") };
    assert!(!schema.same(&DataSchema { fields: vec![field("a"), other] }));
    let other = DataField { default_expr: None, ..field("b") };
    assert!(!schema.same(&DataSchema { fields: vec![field("a"), other] }));
}

#[test]
fn computed_fields_are_removed() {
    let text = "a + b".to_string();
    let stored = DataField { computed_expr: Some(ComputedExpr::Stored(text.clone())), ..field("s") };
    let computed = DataField { computed_expr: Some(ComputedExpr::Virtual(text)), ..field("v") };
    let table = TableSchema { fields: vec![field("a"), stored, computed, field("b")] };
    let names = |t: &TableSchema| -> Vec<String> {
        t.fields.iter().map(|f| f.name.clone()).collect()
    };
    assert_eq!(names(&table.remove_computed_fields()), vec!["a", "b"]);
    assert_eq!(names(&table.remove_virtual_computed_fields()), vec!["a", "s", "b"]);
    assert_eq!(table.to_data_schema().fields.len(), 4);
}

#[test]
fn rows_are_taken_by_slices() {
    let columns = vec![ints(&[1, 2, 3]), ints(&[10, 20])];
    let taken = take_column_by_slices(&columns, &vec![(1, 1, 1), (0, 0, 2), (1, 0, 1)]);
    let values: Vec<i128> = taken
        .iter()
        .map(|c| match c {
            Some(Value::Int(v)) => *v,
            _ => panic!("not a number"),
        })
        .collect();
    assert_eq!(values, vec![20, 1, 2, 10]);
}

#[test]
fn blocks_know_their_rows() {
    let schema = Arc::new(DataSchema { fields: vec![field("a")] });
    let block = DataBlock { schema: schema.clone(), columns: vec![ints(&[4, 5])] };
    assert_eq!(block.num_rows(), 2);
    assert!(!block.is_empty());
    assert_eq!(block.column_by_name(&"a".to_string()).unwrap().len(), 2);
    assert!(block.column_by_name(&"z".to_string()).is_none());
    assert!(DataBlock { schema, columns: vec![ints(&[])] }.is_empty());
}

#[test]
fn errors_point_at_a_place() {
    let e = ErrorCode::create(ErrorKind::BadArguments, "bad");
    assert_eq!(e.span(), None);
    let at = Some(Range { start: 1, end: 4 });
    let moved = e.set_span(at);
    assert_eq!(moved.span(), at);
    assert_eq!(moved.message, "bad");
}
