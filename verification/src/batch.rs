//! Record batches of the columnar format.
use std::sync::Arc;

use arrow::array::{Array, ArrayData, UInt64Array};
use arrow::compute::take_arrays;
use arrow::datatypes::Schema;
use arrow::ipc::reader::StreamReader;
use arrow::ipc::writer::StreamWriter;
use arrow::record_batch::RecordBatch;
use vstd::prelude::*;

use crate::schema::{can_read_schema, encoded_schema, schema_contents, too_large, too_large_text};
use crate::size::{
    check_arrays_fit, check_schema_fits, data_layouts, layouts_fit, schema_fits, Layout,
};
use crate::types::{
    all_flat, all_kept, all_read, all_take, all_write, check_all_read, check_all_take,
    check_all_write, schema_types,
};

verus! {

/// A record batch: rows of cells under named, typed columns.
#[verifier::external_body]
#[derive(Debug)]
pub struct Batch(pub RecordBatch);

/// The rows of a batch, each as bytes that stand for its cells in column order, null
/// cells included; two rows are the same bytes where all their cells agree.
pub uninterp spec fn batch_rows(batch: Batch) -> Seq<Seq<u8>>;

/// The schema of a batch.
pub uninterp spec fn batch_schema(batch: Batch) -> Schema;

/// The columns of a batch, as its schema has them.
pub open spec fn batch_columns(batch: Batch) -> Seq<Seq<char>> {
    schema_contents(batch_schema(batch))
}

/// What a batch holds: its rows and its columns.
pub open spec fn batch_contents(batch: Batch) -> (Seq<Seq<u8>>, Seq<Seq<char>>) {
    (batch_rows(batch), batch_columns(batch))
}

/// Rows can be taken out of the batch.
pub open spec fn can_take_rows(batch: Batch) -> bool {
    all_take(schema_types(batch_schema(batch)), batch_rows(batch).len() as usize)
}

/// The batch has columns, and all of them are flat.
pub open spec fn has_flat_columns(batch: Batch) -> bool {
    &&& schema_types(batch_schema(batch)).len() > 0
    &&& all_flat(schema_types(batch_schema(batch)))
}

/// The types of the batch can be written to a stream.
pub open spec fn can_write_batch(batch: Batch) -> bool {
    all_write(schema_types(batch_schema(batch)))
}

/// The types of the batch can be read back out of a stream.
pub open spec fn can_read_batch(batch: Batch) -> bool {
    all_read(schema_types(batch_schema(batch)))
}

/// The arrays that are the columns of a batch.
pub uninterp spec fn batch_layout(batch: Batch) -> Seq<Layout>;

/// The messages of the batch have room for what they say of it.
pub open spec fn batch_fits(batch: Batch) -> bool {
    schema_fits(batch_schema(batch)) && layouts_fit(batch_layout(batch))
}

/// The columns of the batch are the same when it is read back.
pub open spec fn keeps_columns(batch: Batch) -> bool {
    all_kept(schema_types(batch_schema(batch)))
}

/// The steps of taking rows out of a batch.
pub enum TakeStep {
    /// Taking the rows of a column.
    Take,
    /// Putting the columns together again.
    Assemble,
}

/// The rows and the columns of the batch that taking rows by their numbers gives, or the step
/// that fails.
pub uninterp spec fn rows_taken(batch: Batch, indices: Seq<u64>) -> Result<
    (Seq<Seq<u8>>, Seq<Seq<char>>),
    TakeStep,
>;

/// The stream encoding of a batch: its schema, its dictionaries and its rows.
pub uninterp spec fn batch_stream(batch: Batch) -> Seq<u8>;

/// The bytes are the stream encoding of a batch that can be read back.
pub open spec fn is_batch_stream(bytes: Seq<u8>) -> bool {
    exists|batch: Batch|
        batch_fits(batch) && can_read_batch(batch) && #[trigger] batch_stream(batch) == bytes
}

/// The bytes are the stream encoding of a schema without batches that can be read back.
pub open spec fn is_schema_stream(bytes: Seq<u8>) -> bool {
    exists|schema: Schema| can_read_schema(schema) && #[trigger] encoded_schema(schema) == bytes
}

/// The steps of reading a stream.
pub enum ReadStep {
    /// Creating the reader, which reads the schema.
    Create,
    /// Reading a batch.
    Read,
}

/// What the batches hold that reading a stream gives, in order, or the step that fails.
pub uninterp spec fn stream_batches(bytes: Seq<u8>) -> Result<
    Seq<(Seq<Seq<u8>>, Seq<Seq<char>>)>,
    ReadStep,
>;

/// Which step of taking rows out of a batch failed, and how it says so.
#[derive(Debug)]
pub enum TakeError {
    /// Taking the rows of a column.
    Take(String),
    /// Putting the columns together again.
    Assemble(String),
}

impl TakeError {
    /// Which step failed.
    pub open spec fn step(self) -> TakeStep {
        match self {
            TakeError::Take(_) => TakeStep::Take,
            TakeError::Assemble(_) => TakeStep::Assemble,
        }
    }
}

/// Which step of writing a stream failed, and how it says so.
#[derive(Debug)]
pub enum WriteError {
    /// Creating the writer, which writes the schema.
    Create(String),
    /// Writing the batch.
    Write(String),
    /// Ending the stream.
    Finish(String),
}

/// Which step of reading a stream failed, and how it says so.
#[derive(Debug)]
pub enum ReadError {
    /// Creating the reader, which reads the schema.
    Create(String),
    /// Reading a batch.
    Read(String),
}

impl ReadError {
    /// Which step failed.
    pub open spec fn step(self) -> ReadStep {
        match self {
            ReadError::Create(_) => ReadStep::Create,
            ReadError::Read(_) => ReadStep::Read,
        }
    }
}

/// `RecordBatch::num_rows`: the number of rows.
#[verifier::external_body]
pub(crate) fn row_count(batch: &Batch) -> (n: usize)
    ensures
        n == batch_rows(*batch).len(),
{
    batch.0.num_rows()
}

/// `RecordBatch::schema`: the schema.
#[verifier::external_body]
fn schema_of(batch: &Batch) -> (schema: Arc<Schema>)
    ensures
        *schema == batch_schema(*batch),
{
    batch.0.schema()
}

/// `Array::to_data` on the columns: the arrays, in their order.
#[verifier::external_body]
fn column_arrays(batch: &Batch) -> (arrays: Vec<ArrayData>)
    ensures
        data_layouts(arrays@) == batch_layout(*batch),
{
    batch.0.columns().iter().map(|column| column.to_data()).collect()
}

/// Whether rows can be taken out of the batch.
pub(crate) fn check_take_rows(batch: &Batch) -> (can: bool)
    ensures
        can == can_take_rows(*batch),
{
    check_all_take(&schema_of(batch), row_count(batch))
}

/// Whether the types of the batch can be written to a stream.
pub(crate) fn check_write_batch(batch: &Batch) -> (can: bool)
    ensures
        can == can_write_batch(*batch),
{
    check_all_write(&schema_of(batch))
}

/// Whether the types of the batch can be read back out of a stream.
pub(crate) fn check_read_batch(batch: &Batch) -> (can: bool)
    ensures
        can == can_read_batch(*batch),
{
    check_all_read(&schema_of(batch))
}

/// `arrow::compute::take_arrays` on the columns and `RecordBatch::try_new` on what it
/// gives: whether that succeeds, what the batch then holds, and which of the two calls fails
/// otherwise, depends on the batch and the indices alone. Where it succeeds, the batch has the same columns and holds the rows at
/// the given indices, in the given order; where all columns are flat and there is one, it
/// succeeds. The indices ascend within the batch and there is at least one. On values of
/// other types than those that rows can be taken of, the call can panic or give other rows:
/// a struct is put together anew, which panics on a null that its fields do not announce or
/// on a field whose type has other names inside; a union may hold more than its schema says;
/// no run can be taken out of none; and items of lists of a fixed length are numbered in 32
/// bits. On which other batches it fails is
/// left open; a batch without columns is one.
#[verifier::external_body]
pub(crate) fn take_rows(batch: &Batch, indices: Vec<u64>) -> (taken: Result<Batch, TakeError>)
    requires
        indices@.len() > 0,
        can_take_rows(*batch),
        forall|i: int, j: int|
            0 <= i < j < indices@.len() ==> #[trigger] indices@[i] < #[trigger] indices@[j],
        forall|i: int| 0 <= i < indices@.len() ==> #[trigger] indices@[i] < batch_rows(*batch).len(),
    ensures
        match taken {
            Ok(part) => rows_taken(*batch, indices@) == Ok::<_, TakeStep>(batch_contents(part)),
            Err(error) => rows_taken(*batch, indices@) == Err::<
                (Seq<Seq<u8>>, Seq<Seq<char>>),
                TakeStep,
            >(error.step()),
        },
        taken matches Ok(part) ==> batch_columns(part) == batch_columns(*batch) && batch_rows(part)
            == indices@.map_values(|i: u64| batch_rows(*batch)[i as int]),
        has_flat_columns(*batch) ==> taken is Ok,
{
    let indices = UInt64Array::from(indices);
    let columns = take_arrays(batch.0.columns(), &indices, None)
        .map_err(|e| TakeError::Take(e.to_string()))?;
    let part = RecordBatch::try_new(batch.0.schema(), columns)
        .map_err(|e| TakeError::Assemble(e.to_string()))?;
    Ok(Batch(part))
}

/// `StreamWriter::try_new` into an empty vector, `StreamWriter::write` and
/// `StreamWriter::finish`: the bytes depend on the batch alone, and writing them into
/// memory does not fail. The writer panics where a part of a message takes more than two
/// gigabytes. On a batch with unions it can panic too: the unions of the columns may hold
/// dictionaries that the unions of the schema leave out.
#[verifier::external_body]
fn write_batch_stream(batch: &Batch) -> (bytes: Result<Vec<u8>, WriteError>)
    requires
        can_write_batch(*batch),
        batch_fits(*batch),
    ensures
        bytes is Ok,
        bytes->Ok_0@ == batch_stream(*batch),
{
    let mut buf = Vec::new();
    let mut writer = StreamWriter::try_new(&mut buf, &batch.0.schema())
        .map_err(|e| WriteError::Create(e.to_string()))?;
    writer.write(&batch.0).map_err(|e| WriteError::Write(e.to_string()))?;
    writer.finish().map_err(|e| WriteError::Finish(e.to_string()))?;
    Ok(buf)
}

/// `written` is the stream of a batch, or how writing says which message is too large.
pub open spec fn is_written(batch: Batch, written: Result<Vec<u8>, WriteError>) -> bool {
    match written {
        Ok(bytes) => batch_fits(batch) && bytes@ == batch_stream(batch),
        Err(WriteError::Create(e)) => !schema_fits(batch_schema(batch)) && e@ == too_large(),
        Err(WriteError::Write(e)) => schema_fits(batch_schema(batch)) && !layouts_fit(
            batch_layout(batch),
        ) && e@ == too_large(),
        Err(WriteError::Finish(_)) => false,
    }
}

/// Writes a batch to a stream.
pub(crate) fn write_batch(batch: &Batch) -> (written: Result<Vec<u8>, WriteError>)
    requires
        can_write_batch(*batch),
    ensures
        is_written(*batch, written),
{
    if !check_schema_fits(&schema_of(batch)) {
        return Err(WriteError::Create(too_large_text()));
    }
    if !check_arrays_fit(&column_arrays(batch)) {
        return Err(WriteError::Write(too_large_text()));
    }
    write_batch_stream(batch)
}

/// `StreamReader::try_new` on the stream of a batch or of a schema that can be read back,
/// then all the batches that the reader hands out: whether that succeeds, what the batches
/// then hold, and which of the two fails otherwise, depends on the bytes alone. Where it succeeds on the stream of a batch,
/// there is one batch, which has the rows of the batch that was written, and its columns
/// where the stream keeps them; on the stream of a schema there is none. On other bytes the
/// reader can panic. Reading fails where the schema nests too deep or has too many parts for
/// the reader, or where a struct holds a null that its fields do not announce; on which
/// batches that is so is left open.
#[verifier::external_body]
pub(crate) fn read_batch_stream(bytes: &Vec<u8>) -> (read: Result<Vec<Batch>, ReadError>)
    requires
        is_batch_stream(bytes@) || is_schema_stream(bytes@),
    ensures
        match read {
            Ok(batches) => stream_batches(bytes@) == Ok::<_, ReadStep>(
                batches@.map_values(|batch: Batch| batch_contents(batch)),
            ),
            Err(error) => stream_batches(bytes@) == Err::<
                Seq<(Seq<Seq<u8>>, Seq<Seq<char>>)>,
                ReadStep,
            >(error.step()),
        },
        forall|batch: Batch|
            batch_fits(batch) && can_read_batch(batch) && #[trigger] batch_stream(batch)
                == bytes@ ==> (read matches Ok(batches) ==> {
                &&& batches@.len() == 1
                &&& batch_rows(batches@[0]) == batch_rows(batch)
                &&& keeps_columns(batch) ==> batch_columns(batches@[0]) == batch_columns(batch)
            }),
        forall|schema: Schema|
            can_read_schema(schema) && #[trigger] encoded_schema(schema) == bytes@ ==> (read matches Ok(batches) ==> batches@.len() == 0),
{
    let reader = StreamReader::try_new(bytes.as_slice(), None)
        .map_err(|e| ReadError::Create(e.to_string()))?;
    let batches: Result<Vec<RecordBatch>, _> = reader.collect();
    let batches = batches.map_err(|e| ReadError::Read(e.to_string()))?;
    Ok(batches.into_iter().map(Batch).collect())
}

} // verus!
