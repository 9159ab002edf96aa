use std::sync::Arc;

use databend_query::binder::context::{BindContext, NameResolutionContext};
use databend_query::exception::{ErrorCode, ErrorKind, Range};
use databend_query::expression::schema::{DataField, DataSchema};
use databend_query::expression::value::Value;
use databend_query::pipeline::builder::PipelineBuilder;
use databend_query::pipeline::value_source::{
    expr_tokens, ColumnBuilder, GenerateStep, ReplaceAsyncSourcer, ValueSource, NAME,
    SKIP_EMPTY_DATA_BLOCK,
};

fn schema() -> Arc<DataSchema> {
    Arc::new(DataSchema {
        fields: vec![DataField {
            name: "a".to_string(),
            data_type: "INT".to_string(),
            default_expr: None,
            computed_expr: None,
        }],
    })
}

const CASES: NameResolutionContext =
    NameResolutionContext { unquoted_ident_case_sensitive: false, quoted_ident_case_sensitive: true };

fn decode_columns(s: &ValueSource) -> Option<Vec<ColumnBuilder>> {
    match s.generate() {
        GenerateStep::Finished => None,
        GenerateStep::Decode { data, columns } => {
            assert_eq!(data, s.data);
            Some(columns)
        }
    }
}

fn source(start: usize) -> ValueSource {
    ValueSource::new("(1), (2)".to_string(), CASES, schema(), start)
}

#[test]
fn source_gives_one_block() {
    let mut s = source(0);
    let mut columns = decode_columns(&s).unwrap();
    assert_eq!(columns.len(), 1);
    assert_eq!(columns[0].data_type, "INT");
    assert!(columns[0].cells.is_empty());
    columns[0].cells.push(Some(Value::Int(1)));
    columns[0].cells.push(Some(Value::Int(2)));
    let block = s.generate_decoded(Ok(columns)).unwrap().unwrap();
    assert_eq!(block.num_rows(), 2);
    assert!(matches!(block.columns[0][1], Some(Value::Int(2))));
    assert_eq!(block.schema.fields[0].data_type, "INT");
    assert!(s.is_finished);
    assert!(decode_columns(&s).is_none());
    assert_eq!(NAME, "ValueSource");
    assert!(SKIP_EMPTY_DATA_BLOCK);
}

#[test]
fn source_without_columns_gives_a_block_without_columns() {
    let empty = Arc::new(DataSchema { fields: vec![] });
    let mut s = ValueSource::new("".to_string(), CASES, empty, 0);
    let block = s.generate_decoded(Ok(vec![])).unwrap().unwrap();
    assert!(block.columns.is_empty());
    assert!(decode_columns(&s).is_none());
}

#[test]
fn source_that_could_not_decode_is_not_finished() {
    let mut s = source(0);
    let failed = ErrorCode::create(ErrorKind::BadArguments, "no number");
    let e = s.generate_decoded(Err(failed)).unwrap_err();
    assert_eq!(e.message, "no number");
    assert!(decode_columns(&s).is_some());
}

#[test]
fn place_of_an_error_is_counted_from_the_statement() {
    let statement = "replace into t on(a) values (1), (b)";
    let s = source(28);
    let bad = ErrorCode {
        kind: ErrorKind::SemanticError,
        message: "unknown column b".to_string(),
        span: Some(Range { start: 6, end: 7 }),
    };
    let e = s.parse_fallback(Err(bad)).unwrap_err();
    let span = e.span.unwrap();
    assert_eq!(span, Range { start: 34, end: 35 });
    assert_eq!(&statement[span.start..span.end], "b");
    assert_eq!(&statement[s.start..][6..7], "b");
    assert_eq!(e.message, "unknown column b");
}

#[test]
fn error_without_a_place_and_values_are_passed_on() {
    let s = source(28);
    let e = s.parse_fallback(Err(ErrorCode::create(ErrorKind::BadArguments, "no"))).unwrap_err();
    assert_eq!(e.span, None);
    let cells = s.parse_fallback(Ok(vec![None, Some(Value::Int(3))])).unwrap();
    assert_eq!(cells.len(), 2);
    assert!(matches!(cells[1], Some(Value::Int(3))));
}

#[test]
fn opening_bracket_is_left_out() {
    assert_eq!(expr_tokens(&["(", "1", ",", "2", ")"]), &["1", ",", "2", ")"]);
    assert!(expr_tokens(&["("]).is_empty());
}

#[test]
fn pipeline_begins_with_one_source() {
    let plan = ReplaceAsyncSourcer { schema: schema(), start: 5, value_data: "(7)".to_string() };
    let sourcer = PipelineBuilder::build_async_sourcer(&plan, Ok(CASES)).unwrap();
    assert_eq!(sourcer.outputs, 1);
    assert_eq!(sourcer.source.data, "(7)");
    assert_eq!(sourcer.source.start, 5);
    assert_eq!(sourcer.source.name_resolution_ctx, CASES);
    assert_eq!(sourcer.source.bind_context, BindContext::new());
    assert!(!sourcer.source.is_finished);
    let failed = ErrorCode::create(ErrorKind::BadArguments, "bad setting");
    let e = PipelineBuilder::build_async_sourcer(&plan, Err(failed)).unwrap_err();
    assert_eq!(e.message, "bad setting");
}
