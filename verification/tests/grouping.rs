use std::sync::Arc;

use arrow::array::{
    Array, ArrayRef, DictionaryArray, FixedSizeListArray, Int32Array, ListArray, NullArray, RunArray,
    StringArray, StructArray,
};
use arrow::buffer::OffsetBuffer;
use arrow::datatypes::{DataType, Field, Int32Type, Schema};
use arrow::record_batch::{RecordBatch, RecordBatchOptions};
use ballista_map_partition::batch::{Batch, TakeError};
use ballista_map_partition::error::ErrorKind;
use ballista_map_partition::grouping::{
    group_rows, no_part, split_batch_by_key, split_with, try_split_batch_by_key,
};
use ballista_map_partition::keys::find_key;

fn regions() -> Batch {
    let schema = Arc::new(Schema::new(vec![
        Field::new("region", DataType::Utf8, false),
        Field::new("n", DataType::Int32, true),
    ]));
    let region: ArrayRef = Arc::new(StringArray::from(vec!["east", "west", "east", "north", "west"]));
    let n: ArrayRef = Arc::new(Int32Array::from(vec![Some(1), Some(2), None, Some(4), Some(5)]));
    Batch(RecordBatch::try_new(schema, vec![region, n]).unwrap())
}

fn numbers(batch: &Batch) -> Vec<Option<i32>> {
    let column = batch.0.column(1).as_any().downcast_ref::<Int32Array>().unwrap();
    (0..column.len())
        .map(|i| if column.is_null(i) { None } else { Some(column.value(i)) })
        .collect()
}

#[test]
fn rows_are_grouped_by_first_appearance() {
    let keys = vec![Some(7), None, Some(3), Some(7), Some(3), Some(9), None];
    let (order, rows) = group_rows(keys);
    assert_eq!(order, vec![7, 3, 9]);
    assert_eq!(rows, vec![vec![0, 3], vec![2, 4], vec![5]]);
}

#[test]
fn rows_without_keys_have_no_group() {
    let (order, rows) = group_rows::<u8>(vec![None, None]);
    assert!(order.is_empty());
    assert!(rows.is_empty());
    let (order, _) = group_rows::<u8>(vec![]);
    assert!(order.is_empty());
}

#[test]
fn the_first_of_equal_keys_is_found() {
    assert_eq!(find_key(&vec![4, 5, 4], &4), Some(0));
    assert_eq!(find_key(&vec![4, 5, 4], &5), Some(1));
    assert_eq!(find_key(&vec![4, 5, 4], &6), None);
}

#[test]
fn a_batch_is_split_by_key() {
    let batch = regions();
    let keys = vec![Some("east"), Some("west"), Some("east"), Some("north"), Some("west")];
    let parts = split_batch_by_key(&batch, keys).unwrap();
    let order: Vec<&str> = parts.iter().map(|part| part.0).collect();
    assert_eq!(order, vec!["east", "west", "north"]);
    assert_eq!(numbers(&parts[0].1), vec![Some(1), None]);
    assert_eq!(numbers(&parts[1].1), vec![Some(2), Some(5)]);
    assert_eq!(numbers(&parts[2].1), vec![Some(4)]);
    for part in &parts {
        assert_eq!(part.1.0.schema(), batch.0.schema());
    }
}

#[test]
fn rows_with_null_keys_are_left_out() {
    let batch = regions();
    let parts = split_batch_by_key(&batch, vec![None, Some(1), None, None, Some(1)]).unwrap();
    assert_eq!(parts.len(), 1);
    assert_eq!(numbers(&parts[0].1), vec![Some(2), Some(5)]);
}

#[test]
fn a_batch_without_keys_has_no_parts() {
    let batch = regions();
    assert!(split_batch_by_key::<u8>(&batch, vec![None, None, None, None, None]).unwrap().is_empty());
    assert!(split_batch_by_key::<u8>(&batch, vec![]).unwrap().is_empty());
}

#[test]
fn more_keys_than_rows_are_refused() {
    let batch = regions();
    assert!(try_split_batch_by_key(&batch, vec![Some(1); 6]).is_none());
    let parts = try_split_batch_by_key(&batch, vec![Some(1); 5]).unwrap().unwrap();
    assert_eq!(parts[0].1.0.num_rows(), 5);
}

#[test]
fn a_batch_without_columns_cannot_be_split() {
    let options = RecordBatchOptions::new().with_row_count(Some(2));
    let empty = RecordBatch::try_new_with_options(Arc::new(Schema::empty()), vec![], &options);
    let batch = Batch(empty.unwrap());
    let error = split_batch_by_key(&batch, vec![Some(1), Some(2)]).unwrap_err();
    assert_eq!(error.kind, ErrorKind::Internal);
    assert!(error.message.starts_with("split_batch_by_key: "));
}

#[test]
fn a_batch_is_split_in_the_order_of_its_keys() {
    let k: ArrayRef = Arc::new(StringArray::from(vec![Some("b"), Some("a"), None, Some("b")]));
    let v: ArrayRef = Arc::new(Int32Array::from(vec![1, 2, 3, 4]));
    let batch = RecordBatch::try_from_iter_with_nullable(vec![("k", k, true), ("v", v, false)]);
    let batch = Batch(batch.unwrap());
    let keys = vec![Some("b"), Some("a"), None, Some("b")];
    let parts = try_split_batch_by_key(&batch, keys).unwrap().unwrap();
    assert_eq!(parts.iter().map(|part| part.0).collect::<Vec<_>>(), vec!["b", "a"]);
    assert_eq!(numbers(&parts[0].1), vec![Some(1), Some(4)]);
    assert_eq!(numbers(&parts[1].1), vec![Some(2)]);
    assert_eq!(parts[0].1.0.schema(), batch.0.schema());
}

fn runs() -> ArrayRef {
    let ends = Int32Array::from(vec![1, 3]);
    let values = Int32Array::from(vec![10, 20]);
    Arc::new(RunArray::<Int32Type>::try_new(&ends, &values).unwrap())
}

fn split(name: &str, column: ArrayRef) -> Option<usize> {
    let plain: ArrayRef = Arc::new(Int32Array::from_iter_values(0..column.len() as i32));
    let batch = RecordBatch::try_from_iter(vec![(name, column), ("p", plain)]).unwrap();
    let keys = (0..batch.num_rows()).map(|i| Some(i % 2)).collect();
    let parts = try_split_batch_by_key(&Batch(batch), keys)?.unwrap();
    assert_eq!(numbers(&parts[0].1)[0], Some(0));
    Some(parts.len())
}

#[test]
fn nested_columns_are_split() {
    let lists: ArrayRef = Arc::new(ListArray::from_iter_primitive::<Int32Type, _, _>(vec![
        Some(vec![Some(1)]),
        Some(vec![]),
        None,
    ]));
    assert_eq!(split("l", lists.clone()), Some(2));
    assert_eq!(split("r", runs()), Some(2));
    let coded: ArrayRef =
        Arc::new(vec!["x", "y", "x"].into_iter().collect::<DictionaryArray<Int32Type>>());
    assert_eq!(split("d", coded), Some(2));
    let fixed = FixedSizeListArray::from_iter_primitive::<Int32Type, _, _>(
        vec![Some(vec![Some(1), Some(2)]), None, Some(vec![Some(3), None])],
        2,
    );
    assert_eq!(split("f", Arc::new(fixed)), Some(2));
    let field = Arc::new(Field::new("x", DataType::Int32, true));
    let inner: ArrayRef = Arc::new(Int32Array::from(vec![Some(7), None, Some(9)]));
    assert_eq!(split("s", Arc::new(StructArray::from(vec![(field, inner)]))), Some(2));

    let both = RecordBatch::try_from_iter(vec![("r", runs()), ("l", lists)]).unwrap();
    let parts = try_split_batch_by_key(&Batch(both), vec![Some(1); 3]).unwrap().unwrap();
    assert_eq!(parts[0].1.0.num_rows(), 3);
}

#[test]
fn rows_of_some_types_are_not_taken() {
    let field = Arc::new(Field::new("item", runs().data_type().clone(), true));
    let offsets = OffsetBuffer::from_lengths([1, 2]);
    let nested = ListArray::try_new(field, offsets, runs(), None).unwrap();
    assert_eq!(split("l", Arc::new(nested)), None);

    let field = Field::new("n", DataType::Null, false);
    let schema = Arc::new(Schema::new(vec![field]));
    let nulls: ArrayRef = Arc::new(NullArray::new(1));
    let hidden = StructArray::from(RecordBatch::try_new(schema, vec![nulls]).unwrap());
    assert_eq!(split("s", Arc::new(hidden)), None);
}

#[test]
fn errors_say_which_step_failed() {
    let take = no_part(TakeError::Take("e".to_string()));
    assert_eq!((take.kind, take.message.as_str()), (ErrorKind::Internal, "take: e"));
    let assemble = no_part(TakeError::Assemble("e".to_string()));
    assert_eq!(assemble.message, "split_batch_by_key: e");
}

#[test]
fn parts_are_what_is_taken_for_each_key() {
    let keys = vec![Some('b'), Some('a'), None, Some('b')];
    let parts = split_with(keys.clone(), |rows: &Vec<usize>| Ok(rows.clone()));
    assert_eq!(parts.unwrap(), vec![('b', vec![0, 3]), ('a', vec![1])]);
    let parts = split_with(keys, |rows: &Vec<usize>| {
        if rows.len() == 1 {
            Err(TakeError::Assemble("e".to_string()))
        } else {
            Ok(rows.len())
        }
    });
    let error = parts.unwrap_err();
    assert_eq!((error.kind, error.message.as_str()), (ErrorKind::Internal, "split_batch_by_key: e"));
}
