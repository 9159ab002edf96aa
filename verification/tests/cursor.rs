use std::cmp::Ordering;
use std::sync::Arc;

use databend_query::exception::ErrorKind;
use databend_query::expression::block::DataBlock;
use databend_query::expression::schema::{DataField, DataSchema};
use databend_query::expression::value::{Cell, Value};
use databend_query::merge::cursor::{build_compare, create_compare_map, Cursor};
use databend_query::merge::order::SortColumnDescription;

fn block(columns: &[(&str, &[Option<i128>])]) -> DataBlock {
    DataBlock {
        schema: Arc::new(DataSchema {
            fields: columns
                .iter()
                .map(|(name, _)| DataField {
                    name: name.to_string(),
                    data_type: "INT".to_string(),
                    default_expr: None,
                    computed_expr: None,
                })
                .collect(),
        }),
        columns: columns
            .iter()
            .map(|(_, cells)| {
                Arc::new(cells.iter().map(|v| v.map(Value::Int)).collect::<Vec<Cell>>())
            })
            .collect(),
    }
}

fn by(names: &[&str]) -> Arc<Vec<SortColumnDescription>> {
    Arc::new(
        names
            .iter()
            .map(|n| SortColumnDescription {
                column_name: n.to_string(),
                asc: true,
                nulls_first: false,
            })
            .collect(),
    )
}

#[test]
fn cursor_goes_through_the_rows() {
    let b = block(&[("a", &[Some(1), Some(2)])]);
    let mut c = Cursor::try_create(3, &b, by(&["a"])).unwrap();
    assert_eq!(c.input_index, 3);
    assert!(!c.is_finished());
    assert_eq!(c.advance(), 0);
    assert!(!c.is_finished());
    assert_eq!(c.advance(), 1);
    assert!(c.is_finished());
}

#[test]
fn cursor_needs_the_sort_columns() {
    let b = block(&[("a", &[Some(1)])]);
    let e = Cursor::try_create(0, &b, by(&["a", "c", "b"])).unwrap_err();
    assert_eq!(e.kind, ErrorKind::UnknownColumn);
    assert_eq!(e.message, "c");
}

#[test]
fn cursors_are_compared_by_key_and_input() {
    let left = block(&[("a", &[Some(1), Some(5), None])]);
    let right = block(&[("a", &[Some(1), Some(4)])]);
    let sort = by(&["a"]);
    let mut map = create_compare_map(2);
    assert_eq!(map.len(), 2);
    assert!(map.iter().all(|row| row.len() == 2 && row.iter().all(|c| c.is_empty())));
    map[0][1] = build_compare(&left, &right, &sort).unwrap();
    map[1][0] = build_compare(&right, &left, &sort).unwrap();
    let mut l = Cursor::try_create(0, &left, sort.clone()).unwrap();
    let mut r = Cursor::try_create(1, &right, sort).unwrap();
    assert_eq!(l.compare(&r, &map).unwrap(), Ordering::Less);
    assert_eq!(r.compare(&l, &map).unwrap(), Ordering::Greater);
    assert!(l.is_before(&r, &map));
    l.advance();
    r.advance();
    assert_eq!(l.compare(&r, &map).unwrap(), Ordering::Greater);
    l.advance();
    assert_eq!(l.compare(&r, &map).unwrap(), Ordering::Greater);
    assert_eq!(r.compare(&l, &map).unwrap(), Ordering::Less);
}

#[test]
fn cursors_with_different_sort_columns_are_an_error() {
    let b = block(&[("a", &[Some(1)]), ("b", &[Some(2)])]);
    let one = Cursor::try_create(0, &b, by(&["a"])).unwrap();
    let two = Cursor::try_create(1, &b, by(&["a", "b"])).unwrap();
    let mut two = two;
    two.advance();
    let e = one.compare(&two, &create_compare_map(0)).unwrap_err();
    assert_eq!(e.kind, ErrorKind::LogicalError);
    assert_eq!(e.message, "Sort columns length not match: 1 != 2");
}

#[test]
fn comparators_need_the_sort_columns_of_both_blocks() {
    let left = block(&[("a", &[Some(1)]), ("b", &[Some(2)])]);
    let right = block(&[("a", &[Some(1)])]);
    let e = build_compare(&left, &right, &by(&["a", "b"])).unwrap_err();
    assert_eq!(e.kind, ErrorKind::UnknownColumn);
    assert_eq!(e.message, "b");
    assert_eq!(build_compare(&left, &left, &by(&["a", "b"])).unwrap().len(), 2);
}
