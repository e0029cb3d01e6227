use std::sync::Arc;

use arrow::array::{
    Array, ArrayRef, DictionaryArray, Int32Array, ListArray, ListViewArray, RunArray, StringArray,
    StructArray, UnionArray,
};
use arrow::datatypes::{DataType, Field, Int32Type, Schema, TimeUnit, UnionFields, UnionMode};
use arrow::record_batch::RecordBatch;
use ballista_map_partition::batch::{Batch, ReadError, WriteError};
use ballista_map_partition::error::ErrorKind;
use ballista_map_partition::execution::copying::{
    copied_batch, copy_stream, copy_with, deep_copy_batch, try_deep_copy_batch,
};
use ballista_map_partition::schema::{
    decode_schema, decoded_schema, encode_schema, try_reread_schema,
};
use ballista_map_partition::sdk::ipc::{
    decode_batch, encode_batch, encoded_batch, first_batch, try_encode_batch,
};

fn people() -> RecordBatch {
    let names: ArrayRef = Arc::new(StringArray::from(vec![Some("ann"), None, Some("bo")]));
    let ages: ArrayRef = Arc::new(Int32Array::from(vec![Some(31), Some(4), None]));
    RecordBatch::try_from_iter(vec![("name", names), ("age", ages)]).unwrap()
}

fn nested() -> RecordBatch {
    let lists: ArrayRef = Arc::new(ListArray::from_iter_primitive::<Int32Type, _, _>(vec![
        Some(vec![Some(1), None]),
        None,
        Some(vec![]),
    ]));
    let field = Arc::new(Field::new("x", DataType::Int32, true));
    let inner: ArrayRef = Arc::new(Int32Array::from(vec![Some(7), None, Some(9)]));
    let structs: ArrayRef = Arc::new(StructArray::from(vec![(field, inner)]));
    RecordBatch::try_from_iter(vec![("l", lists), ("s", structs)]).unwrap()
}

fn coded() -> RecordBatch {
    let coded: ArrayRef = Arc::new(
        vec!["x", "y", "x"].into_iter().collect::<DictionaryArray<Int32Type>>(),
    );
    RecordBatch::try_from_iter(vec![("c", coded)]).unwrap()
}

#[test]
fn a_decoded_batch_is_the_encoded_one() {
    let bytes = encode_batch(&Batch(people())).unwrap();
    assert_eq!(decode_batch(&bytes).unwrap().0, people());
    let bytes = encode_batch(&Batch(nested())).unwrap();
    assert_eq!(decode_batch(&bytes).unwrap().0, nested());
}

#[test]
fn a_stream_starts_with_its_schema() {
    let batch = people();
    let schema = encode_schema(&batch.schema()).unwrap();
    let bytes = encode_batch(&Batch(batch)).unwrap();
    // Both end with the eight bytes that end a stream.
    let head = schema.len() - 8;
    assert!(bytes.len() > schema.len());
    assert_eq!(bytes[..head], schema[..head]);
    assert_eq!(bytes[bytes.len() - 8..], schema[head..]);
    assert_eq!(schema[head..], [255, 255, 255, 255, 0, 0, 0, 0]);
}

#[test]
fn decoding_takes_the_first_batch() {
    let read = Ok(vec![Batch(people()), Batch(nested())]);
    assert_eq!(first_batch(read).unwrap().0, people());
    assert_eq!(first_batch(Ok(vec![])).unwrap_err(), "no batch in IPC bytes");
    let create = first_batch(Err(ReadError::Create("e".to_string())));
    assert_eq!(create.unwrap_err(), "failed to create IPC reader for batch: e");
    let read = first_batch(Err(ReadError::Read("e".to_string())));
    assert_eq!(read.unwrap_err(), "failed to read IPC batches: e");
}

#[test]
fn a_copy_has_the_rows_of_the_batch() {
    assert_eq!(deep_copy_batch(&Batch(people())).unwrap().0, people());
    let copied = try_deep_copy_batch(&Batch(nested())).unwrap();
    assert_eq!(copied.unwrap().0, nested());
    let part = people().slice(1, 2);
    assert_eq!(deep_copy_batch(&Batch(part.clone())).unwrap().0, part);
}

#[test]
fn a_copy_shares_no_buffer_with_the_batch() {
    let batch = people();
    let copy = deep_copy_batch(&Batch(batch.clone())).unwrap().0;
    for (a, b) in batch.columns().iter().zip(copy.columns()) {
        assert!(!a.to_data().ptr_eq(&b.to_data()));
    }
}

#[test]
fn dictionaries_are_copied() {
    let copied = try_deep_copy_batch(&Batch(coded())).unwrap();
    assert_eq!(copied.unwrap().0, coded());
    let bytes = encode_batch(&Batch(coded())).unwrap();
    assert_eq!(decode_batch(&bytes).unwrap().0, coded());
}

#[test]
fn runs_and_list_views_are_copied() {
    let ends = Int32Array::from(vec![1, 3]);
    let runs = RunArray::<Int32Type>::try_new(&ends, &Int32Array::from(vec![10, 20])).unwrap();
    let field = Arc::new(Field::new("item", DataType::Int32, true));
    let items: ArrayRef = Arc::new(Int32Array::from(vec![1, 2, 3]));
    let views =
        ListViewArray::try_new(field, vec![1, 0, 0].into(), vec![2, 1, 0].into(), items, None);
    let columns: Vec<(&str, ArrayRef)> =
        vec![("r", Arc::new(runs)), ("v", Arc::new(views.unwrap()))];
    let batch = RecordBatch::try_from_iter(columns).unwrap();
    let copied = try_deep_copy_batch(&Batch(batch.clone())).unwrap();
    assert_eq!(copied.unwrap().0, batch);
}

#[test]
fn unions_are_neither_written_nor_copied() {
    let fields = UnionFields::try_new([0], [Field::new("x", DataType::Int32, false)]).unwrap();
    let items: ArrayRef = Arc::new(Int32Array::from(vec![1, 2]));
    let union = UnionArray::try_new(fields, vec![0, 0].into(), None, vec![items]).unwrap();
    let column: ArrayRef = Arc::new(union);
    let batch = Batch(RecordBatch::try_from_iter(vec![("u", column)]).unwrap());
    assert!(try_deep_copy_batch(&batch).is_none());
    assert!(try_encode_batch(&batch).is_none());
    assert!(try_encode_batch(&Batch(people())).unwrap().is_ok());
}

#[test]
fn a_stream_without_a_batch_gives_none() {
    let bytes = encode_schema(&people().schema()).unwrap();
    assert_eq!(decode_batch(&bytes).unwrap_err(), "no batch in IPC bytes");
}

#[test]
fn a_decoded_schema_is_the_encoded_one() {
    let schema = nested().schema();
    let bytes = encode_schema(&schema).unwrap();
    assert_eq!(decode_schema(&bytes).unwrap(), schema);
    let unread = decoded_schema(Err("e".to_string())).unwrap_err();
    assert_eq!(unread, "failed to create IPC reader for schema: e");
    assert_eq!(try_reread_schema(&coded().schema()).unwrap().unwrap(), coded().schema());
}

#[test]
fn schemas_that_cannot_be_read_back_are_refused() {
    let wrong = DataType::Dictionary(Box::new(DataType::Utf8), Box::new(DataType::Utf8));
    let schema = Schema::new(vec![Field::new("d", wrong, true)]);
    assert!(try_reread_schema(&schema).is_none());
    let fields = UnionFields::try_new([0], [Field::new("x", DataType::Int32, false)]).unwrap();
    let union = DataType::Union(fields, UnionMode::Dense);
    assert!(try_reread_schema(&Schema::new(vec![Field::new("u", union, true)])).is_none());
}

#[test]
fn a_stream_changes_an_empty_time_zone() {
    let zoned = DataType::Timestamp(TimeUnit::Second, Some("".into()));
    let schema = Schema::new(vec![Field::new("t", zoned, true)]);
    let reread = try_reread_schema(&schema).unwrap().unwrap();
    assert_eq!(*reread.field(0).data_type(), DataType::Timestamp(TimeUnit::Second, None));
}

#[test]
fn writing_errors_say_which_step_failed() {
    let step = |make: fn(String) -> WriteError| make("e".to_string());
    let sdk = |error: WriteError| encoded_batch(Err(error)).unwrap_err();
    assert_eq!(sdk(step(WriteError::Create)), "failed to create IPC writer: e");
    assert_eq!(sdk(step(WriteError::Write)), "failed to write IPC batch: e");
    assert_eq!(sdk(step(WriteError::Finish)), "failed to finish IPC writer: e");
    let copy = |error: WriteError| copy_stream(Err(error)).unwrap_err().message;
    assert_eq!(copy(step(WriteError::Create)), "deep copy writer: e");
    assert_eq!(copy(step(WriteError::Write)), "deep copy write: e");
    assert_eq!(copy(step(WriteError::Finish)), "deep copy finish: e");
    assert_eq!(copy_stream(Ok(vec![1])).unwrap(), vec![1]);
    assert_eq!(encoded_batch(Ok(vec![1])).unwrap(), vec![1]);
}

#[test]
fn copying_takes_the_last_batch() {
    let last = copied_batch(Ok(vec![Batch(nested()), Batch(people())]));
    assert_eq!(last.unwrap().0, people());
    let empty = copied_batch::<Batch>(Ok(vec![])).unwrap_err();
    assert_eq!((empty.kind, empty.message.as_str()), (ErrorKind::Internal, "deep copy: empty stream"));
    let create = copied_batch::<Batch>(Err(ReadError::Create("e".to_string()))).unwrap_err();
    assert_eq!(create.message, "deep copy reader: e");
    let read = copied_batch::<Batch>(Err(ReadError::Read("e".to_string()))).unwrap_err();
    assert_eq!((read.kind, read.message.as_str()), (ErrorKind::Internal, "deep copy read: e"));
}

#[test]
fn a_copy_goes_through_what_it_is_given() {
    let write = |text: &String| Ok(text.clone().into_bytes());
    let read = |bytes: &Vec<u8>| Ok(vec![String::new(), format!("{}!", bytes.len())]);
    assert_eq!(copy_with(&"four".to_string(), write, read).unwrap(), "4!");
    let none = |_: &Vec<u8>| Ok(Vec::<String>::new());
    let copied = copy_with(&"four".to_string(), write, none);
    assert_eq!(copied.unwrap_err().message, "deep copy: empty stream");
    let unreadable = |_: &Vec<u8>| Err::<Vec<String>, _>(ReadError::Create("e".to_string()));
    let copied = copy_with(&"four".to_string(), write, unreadable);
    assert_eq!(copied.unwrap_err().message, "deep copy reader: e");
    let unwritable = |_: &String| Err(WriteError::Write("e".to_string()));
    let copied = copy_with(&"four".to_string(), unwritable, read);
    assert_eq!(copied.unwrap_err().message, "deep copy write: e");
}
