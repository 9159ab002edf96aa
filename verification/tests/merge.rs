use std::collections::VecDeque;
use std::sync::Arc;

use databend_query::exception::{ErrorCode, ErrorKind};
use databend_query::expression::block::DataBlock;
use databend_query::expression::schema::{DataField, DataSchema};
use databend_query::expression::value::{Cell, Value};
use databend_query::merge::order::SortColumnDescription;
use databend_query::merge::port::{InputPort, OutputPort};
use databend_query::merge::processor::{Event, MultiSortMergeProcessor, ProcessorState};

fn field(name: &str) -> DataField {
    DataField {
        name: name.to_string(),
        data_type: "BIGINT NULL".to_string(),
        default_expr: None,
        computed_expr: None,
    }
}

fn schema(names: &[&str]) -> Arc<DataSchema> {
    Arc::new(DataSchema { fields: names.iter().map(|n| field(n)).collect() })
}

fn cell(v: Option<i128>) -> Cell {
    v.map(Value::Int)
}

fn block(names: &[&str], columns: &[&[Option<i128>]]) -> DataBlock {
    DataBlock {
        schema: schema(names),
        columns: columns
            .iter()
            .map(|c| Arc::new(c.iter().map(|v| cell(*v)).collect::<Vec<Cell>>()))
            .collect(),
    }
}

fn keys(values: &[i128]) -> DataBlock {
    let cells: Vec<Option<i128>> = values.iter().map(|v| Some(*v)).collect();
    block(&["a"], &[&cells])
}

fn by(name: &str, asc: bool, nulls_first: bool) -> SortColumnDescription {
    SortColumnDescription { column_name: name.to_string(), asc, nulls_first }
}

fn merge_of(
    inputs: usize,
    names: &[&str],
    block_size: usize,
    limit: Option<usize>,
    sort: Vec<SortColumnDescription>,
) -> MultiSortMergeProcessor {
    let ports: Vec<InputPort> = (0..inputs).map(|_| InputPort::create()).collect();
    MultiSortMergeProcessor::create(
        ports,
        OutputPort::create(),
        schema(names),
        block_size,
        limit,
        Arc::new(sort),
    )
}

fn column(block: &DataBlock, c: usize) -> Vec<Option<i128>> {
    block.columns[c]
        .iter()
        .map(|cell| match cell {
            Some(Value::Int(v)) => Some(*v),
            Some(Value::Bytes(_)) => panic!("bytes in a column of numbers"),
            None => None,
        })
        .collect()
}

fn feed(p: &mut MultiSortMergeProcessor, queues: &mut [VecDeque<DataBlock>]) {
    for (i, queue) in queues.iter_mut().enumerate() {
        let port = &mut p.inputs[i];
        if port.finished || port.data.is_some() {
            continue;
        }
        match queue.pop_front() {
            Some(b) => port.data = Some(Ok(b)),
            None => port.finished = true,
        }
    }
}

fn run(
    p: &mut MultiSortMergeProcessor,
    inputs: Vec<Vec<DataBlock>>,
) -> Result<Vec<DataBlock>, ErrorCode> {
    let mut queues: Vec<VecDeque<DataBlock>> = inputs.into_iter().map(VecDeque::from).collect();
    let mut sent = Vec::new();
    for _ in 0..10_000 {
        feed(p, &mut queues);
        p.output.ready = true;
        match p.event()? {
            Event::Finished => return Ok(sent),
            Event::Sync => p.process()?,
            Event::NeedConsume => sent.push(p.output.data.take().unwrap()?),
            Event::NeedData => {}
        }
    }
    panic!("the merge does not end");
}

fn rows(sent: &[DataBlock], c: usize) -> Vec<Option<i128>> {
    sent.iter().flat_map(|b| column(b, c)).collect()
}

fn some(values: &[i128]) -> Vec<Option<i128>> {
    values.iter().map(|v| Some(*v)).collect()
}

#[test]
fn rows_leave_in_order() {
    let mut p = merge_of(3, &["a"], 4, None, vec![by("a", true, true)]);
    let sent = run(
        &mut p,
        vec![
            vec![keys(&[1, 4, 7]), keys(&[10])],
            vec![keys(&[2, 5, 8])],
            vec![keys(&[3, 6, 9])],
        ],
    )
    .unwrap();
    assert_eq!(rows(&sent, 0), some(&[1, 2, 3, 4, 5, 6, 7, 8, 9, 10]));
    assert!(p.output.finished);
    assert_eq!(p.name(), "MultiSortMerge");
}

#[test]
fn equal_rows_leave_by_input() {
    let names = ["a", "from"];
    let mut p = merge_of(2, &names, 100, None, vec![by("a", true, true)]);
    let left = block(&names, &[&some(&[1, 1, 2]), &some(&[10, 11, 12])]);
    let right = block(&names, &[&some(&[1, 2]), &some(&[20, 21])]);
    let sent = run(&mut p, vec![vec![right], vec![left]]).unwrap();
    assert_eq!(rows(&sent, 0), some(&[1, 1, 1, 2, 2]));
    assert_eq!(rows(&sent, 1), some(&[20, 10, 11, 21, 12]));
}

#[test]
fn descending_with_nulls_last() {
    let mut p = merge_of(2, &["a"], 100, None, vec![by("a", false, false)]);
    let left = block(&["a"], &[&[Some(9), Some(3), None]]);
    let right = block(&["a"], &[&[Some(5), None]]);
    let sent = run(&mut p, vec![vec![left], vec![right]]).unwrap();
    assert_eq!(rows(&sent, 0), vec![Some(9), Some(5), Some(3), None, None]);
}

#[test]
fn nulls_first_stay_first_when_descending() {
    let mut p = merge_of(2, &["a"], 100, None, vec![by("a", false, true)]);
    let left = block(&["a"], &[&[None, Some(3)]]);
    let right = block(&["a"], &[&[None, Some(5)]]);
    let sent = run(&mut p, vec![vec![left], vec![right]]).unwrap();
    assert_eq!(rows(&sent, 0), vec![None, None, Some(5), Some(3)]);
}

#[test]
fn second_column_decides_where_the_first_is_equal() {
    let names = ["a", "b"];
    let mut p =
        merge_of(2, &names, 100, None, vec![by("a", true, true), by("b", false, true)]);
    let left = block(&names, &[&some(&[1, 1]), &some(&[8, 2])]);
    let right = block(&names, &[&some(&[1, 2]), &some(&[5, 1])]);
    let sent = run(&mut p, vec![vec![left], vec![right]]).unwrap();
    assert_eq!(rows(&sent, 1), some(&[8, 5, 2, 1]));
}

#[test]
fn all_rows_leave_and_each_once() {
    let mut p = merge_of(2, &["a"], 3, None, vec![by("a", true, true)]);
    let sent = run(
        &mut p,
        vec![
            vec![keys(&[1, 1]), keys(&[]), keys(&[1, 6])],
            vec![keys(&[]), keys(&[0, 1, 7, 8])],
        ],
    )
    .unwrap();
    assert_eq!(rows(&sent, 0), some(&[0, 1, 1, 1, 1, 6, 7, 8]));
}

#[test]
fn blocks_have_the_block_size_at_least() {
    let mut p = merge_of(2, &["a"], 2, None, vec![by("a", true, true)]);
    let sent = run(&mut p, vec![vec![keys(&[1, 3, 5])], vec![keys(&[2, 4, 6])]]).unwrap();
    let sizes: Vec<usize> = sent.iter().map(|b| b.num_rows()).collect();
    assert_eq!(sizes.iter().sum::<usize>(), 6);
    assert!(sizes[..sizes.len() - 1].iter().all(|n| *n >= 2));
}

#[test]
fn limit_is_kept() {
    for limit in 0..8 {
        let mut p = merge_of(2, &["a"], 2, Some(limit), vec![by("a", true, true)]);
        let sent = run(&mut p, vec![vec![keys(&[1, 3, 5])], vec![keys(&[2, 4, 6])]]).unwrap();
        let expected: Vec<i128> = (1..=6).take(limit).collect();
        assert_eq!(rows(&sent, 0), some(&expected));
        assert_eq!(p.limit, Some(limit - expected.len()));
    }
}

#[test]
fn limited_merge_sends_the_first_rows_of_the_unlimited_one() {
    let inputs = || vec![vec![keys(&[1, 3, 3]), keys(&[9])], vec![keys(&[2, 3, 8])]];
    let mut all = merge_of(2, &["a"], 2, None, vec![by("a", true, true)]);
    let all_rows = rows(&run(&mut all, inputs()).unwrap(), 0);
    assert_eq!(all_rows, some(&[1, 2, 3, 3, 3, 8, 9]));
    for limit in 0..10 {
        let mut p = merge_of(2, &["a"], 3, Some(limit), vec![by("a", true, true)]);
        let sent = run(&mut p, inputs()).unwrap();
        assert_eq!(rows(&sent, 0), all_rows[..limit.min(all_rows.len())]);
    }
}

#[test]
fn sent_blocks_have_rows_and_the_output_schema() {
    let mut p = merge_of(2, &["a"], 2, None, vec![by("a", true, true)]);
    let inputs = vec![vec![keys(&[]), keys(&[1, 2])], vec![keys(&[2]), keys(&[])]];
    let sent = run(&mut p, inputs).unwrap();
    assert!(!sent.is_empty());
    assert!(sent.iter().all(|b| b.num_rows() > 0 && Arc::ptr_eq(&b.schema, &p.output_schema)));
}

#[test]
fn merge_begins_without_comparators() {
    let p = merge_of(3, &["a"], 2, None, vec![by("a", true, true)]);
    assert_eq!(p.nums_active_inputs(), 3);
    assert_eq!(p.compare_map.len(), 3);
    assert!(p.compare_map.iter().all(|row| row.len() == 3 && row.iter().all(|c| c.is_empty())));
}

#[test]
fn comparators_are_built_only_where_blocks_are_compared() {
    let mut p = merge_of(3, &["a"], 2, None, vec![by("a", true, true)]);
    p.output.ready = true;
    p.inputs[0].data = Some(Ok(keys(&[1])));
    p.inputs[1].data = Some(Ok(keys(&[2])));
    assert_eq!(p.event().unwrap(), Event::Sync);
    p.process().unwrap();
    let built: Vec<Vec<usize>> =
        p.compare_map.iter().map(|row| row.iter().map(|c| c.len()).collect()).collect();
    assert_eq!(built, vec![vec![0, 1, 0], vec![1, 0, 0], vec![0, 0, 0]]);
}

#[test]
fn limit_of_zero_finishes_all_ports() {
    let mut p = merge_of(2, &["a"], 2, Some(0), vec![by("a", true, true)]);
    p.output.ready = true;
    assert_eq!(p.event().unwrap(), Event::Finished);
    assert!(p.output.finished);
    assert!(p.inputs.iter().all(|i| i.finished));
}

#[test]
fn no_inputs_finish_at_once() {
    let mut p = merge_of(0, &["a"], 2, None, vec![by("a", true, true)]);
    p.output.ready = true;
    assert_eq!(p.event().unwrap(), Event::Finished);
    assert!(p.output.finished);
}

#[test]
fn finished_output_finishes_the_inputs() {
    let mut p = merge_of(2, &["a"], 2, None, vec![by("a", true, true)]);
    p.output.finished = true;
    assert_eq!(p.event().unwrap(), Event::Finished);
    assert!(p.inputs.iter().all(|i| i.finished));
}

#[test]
fn output_that_takes_nothing_is_waited_for() {
    let mut p = merge_of(1, &["a"], 2, None, vec![by("a", true, true)]);
    p.inputs[0].data = Some(Ok(keys(&[1])));
    assert_eq!(p.event().unwrap(), Event::NeedConsume);
    assert!(p.inputs[0].data.is_some());
    assert!(!p.inputs[0].need_data);
}

#[test]
fn inputs_are_asked_for_data() {
    let mut p = merge_of(2, &["a"], 2, None, vec![by("a", true, true)]);
    p.output.ready = true;
    assert_eq!(p.event().unwrap(), Event::NeedData);
    assert!(p.inputs.iter().all(|i| i.need_data));
}

#[test]
fn interrupted_merge_gives_an_error() {
    let mut p = merge_of(1, &["a"], 2, None, vec![by("a", true, true)]);
    p.interrupt();
    let e = p.event().unwrap_err();
    assert_eq!(e.kind, ErrorKind::AbortedQuery);
    assert_eq!(
        e.message,
        "Aborted query, because the server is shutting down or the query was killed."
    );
}

#[test]
fn error_of_an_input_is_passed_on() {
    let mut p = merge_of(2, &["a"], 2, None, vec![by("a", true, true)]);
    p.output.ready = true;
    p.inputs[0].data = Some(Ok(keys(&[1])));
    p.inputs[1].data = Some(Err(ErrorCode::create(ErrorKind::Other(1001), "read failed")));
    let e = p.event().unwrap_err();
    assert_eq!(e.kind, ErrorKind::Other(1001));
    assert_eq!(e.message, "read failed");
    assert!(p.inputs[1].data.is_none());
}

#[test]
fn process_without_a_task_is_an_error() {
    let mut p = merge_of(1, &["a"], 2, None, vec![by("a", true, true)]);
    let e = p.process().unwrap_err();
    assert_eq!(e.kind, ErrorKind::LogicalError);
    assert_eq!(e.message, "It's a bug.");
}

#[test]
fn event_with_blocks_to_keep_is_an_error() {
    let mut p = merge_of(1, &["a"], 2, None, vec![by("a", true, true)]);
    p.output.ready = true;
    p.inputs[0].data = Some(Ok(keys(&[1])));
    assert_eq!(p.event().unwrap(), Event::Sync);
    assert!(matches!(p.state, ProcessorState::Preserve(_)));
    let e = p.event().unwrap_err();
    assert_eq!(e.kind, ErrorKind::LogicalError);
    assert_eq!(e.message, "It's a bug.");
}

#[test]
fn missing_sort_column_is_named() {
    let sort = vec![by("a", true, true), by("z", true, true), by("y", true, true)];
    let mut p = merge_of(2, &["a"], 2, None, sort);
    let e = run(&mut p, vec![vec![keys(&[1])], vec![keys(&[2])]]).unwrap_err();
    assert_eq!(e.kind, ErrorKind::UnknownColumn);
    assert_eq!(e.message, "z");
}

#[test]
fn missing_sort_column_is_named_where_nothing_is_compared() {
    let mut p = merge_of(1, &["a"], 2, None, vec![by("z", true, true)]);
    let e = run(&mut p, vec![vec![keys(&[1])]]).unwrap_err();
    assert_eq!(e.kind, ErrorKind::UnknownColumn);
    assert_eq!(e.message, "z");
}

#[test]
fn no_row_is_merged_while_an_input_may_bring_a_lesser_one() {
    let mut p = merge_of(2, &["a"], 1, None, vec![by("a", true, true)]);
    p.output.ready = true;
    p.inputs[0].data = Some(Ok(keys(&[5])));
    assert_eq!(p.event().unwrap(), Event::Sync);
    p.process().unwrap();
    assert!(p.in_progess_rows.is_empty());
    assert_eq!(p.heap.len(), 1);
    p.inputs[1].data = Some(Ok(keys(&[3])));
    assert_eq!(p.event().unwrap(), Event::Sync);
    p.process().unwrap();
    assert_eq!(p.in_progess_rows, vec![(1, 0, 0)]);
    assert_eq!(p.nums_active_inputs(), 2);
}

#[test]
fn bytes_are_ordered_like_words() {
    let word = |w: &str| Some(Value::Bytes(w.as_bytes().to_vec()));
    let words = |ws: &[&str]| DataBlock {
        schema: schema(&["a"]),
        columns: vec![Arc::new(ws.iter().map(|w| word(w)).collect::<Vec<Cell>>())],
    };
    let mut p = merge_of(2, &["a"], 100, None, vec![by("a", true, true)]);
    let sent = run(&mut p, vec![vec![words(&["a", "ab", "b"])], vec![words(&["", "aa"])]]).unwrap();
    let got: Vec<String> = sent
        .iter()
        .flat_map(|b| b.columns[0].iter())
        .map(|c| match c {
            Some(Value::Bytes(w)) => String::from_utf8(w.clone()).unwrap(),
            _ => panic!("not a word"),
        })
        .collect();
    assert_eq!(got, vec!["", "a", "aa", "ab", "b"]);
}
