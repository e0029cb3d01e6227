//! Batches in the stream encoding, for processor libraries.
use vstd::prelude::*;

use crate::batch::{
    batch_columns, batch_contents, batch_fits, batch_layout, batch_rows, batch_schema, batch_stream,
    can_read_batch, can_write_batch, check_write_batch, is_batch_stream, is_schema_stream,
    keeps_columns, read_batch_stream, stream_batches, write_batch, Batch, ReadError, ReadStep,
    WriteError,
};
use crate::schema::too_large;
use crate::size::{layouts_fit, schema_fits};
use crate::text::text_of;

verus! {

/// What encoding says where a stream cannot be written.
pub open spec fn encode_error(error: WriteError) -> Seq<char> {
    match error {
        WriteError::Create(e) => "failed to create IPC writer: "@ + e@,
        WriteError::Write(e) => "failed to write IPC batch: "@ + e@,
        WriteError::Finish(e) => "failed to finish IPC writer: "@ + e@,
    }
}

/// The stream of a batch, as it was written.
pub fn encoded_batch(written: Result<Vec<u8>, WriteError>) -> (bytes: Result<Vec<u8>, String>)
    ensures
        match written {
            Ok(w) => bytes == Ok::<Vec<u8>, String>(w),
            Err(error) => bytes matches Err(e) && e@ == encode_error(error),
        },
{
    match written {
        Ok(bytes) => Ok(bytes),
        Err(WriteError::Create(e)) => Err(text_of("failed to create IPC writer: ", e.as_str())),
        Err(WriteError::Write(e)) => Err(text_of("failed to write IPC batch: ", e.as_str())),
        Err(WriteError::Finish(e)) => Err(text_of("failed to finish IPC writer: ", e.as_str())),
    }
}

/// `encoded` is the stream of a batch, or what encoding says where a message is too large:
/// that of the schema, or that of the rows.
pub open spec fn is_encoded(batch: Batch, encoded: Result<Vec<u8>, String>) -> bool {
    match encoded {
        Ok(bytes) => batch_fits(batch) && bytes@ == batch_stream(batch),
        Err(e) => !batch_fits(batch) && e@ == if schema_fits(batch_schema(batch)) {
            "failed to write IPC batch: "@ + too_large()
        } else {
            "failed to create IPC writer: "@ + too_large()
        },
    }
}

/// Encodes a batch.
pub fn encode_batch(batch: &Batch) -> (bytes: Result<Vec<u8>, String>)
    requires
        can_write_batch(*batch),
    ensures
        is_encoded(*batch, bytes),
{
    encoded_batch(write_batch(batch))
}

/// Encodes a batch where it can be written to a stream, and nothing otherwise.
pub fn try_encode_batch(batch: &Batch) -> (bytes: Option<Result<Vec<u8>, String>>)
    ensures
        bytes is Some <==> can_write_batch(*batch),
        bytes matches Some(encoded) ==> is_encoded(*batch, encoded),
{
    if check_write_batch(batch) {
        Some(encode_batch(batch))
    } else {
        None
    }
}

/// What decoding says where a stream cannot be read.
pub open spec fn decode_error(error: ReadError) -> Seq<char> {
    match error {
        ReadError::Create(e) => "failed to create IPC reader for batch: "@ + e@,
        ReadError::Read(e) => "failed to read IPC batches: "@ + e@,
    }
}

/// The first of the batches that were read out of a stream.
pub fn first_batch(read: Result<Vec<Batch>, ReadError>) -> (first: Result<Batch, String>)
    ensures
        match read {
            Ok(batches) => if batches@.len() > 0 {
                first == Ok::<Batch, String>(batches@[0])
            } else {
                first matches Err(e) && e@ == "no batch in IPC bytes"@
            },
            Err(error) => first matches Err(e) && e@ == decode_error(error),
        },
{
    match read {
        Ok(batches) => {
            if batches.len() == 0 {
                return Err("no batch in IPC bytes".to_owned());
            }
            let mut batches = batches;
            Ok(batches.swap_remove(0))
        },
        Err(ReadError::Create(e)) => Err(
            text_of("failed to create IPC reader for batch: ", e.as_str()),
        ),
        Err(ReadError::Read(e)) => Err(text_of("failed to read IPC batches: ", e.as_str())),
    }
}

/// Decodes what [`encode_batch`] made of a batch that can be read back: where the stream can
/// be read, it gives the batch that reading gives, which has the rows of the batch that was
/// encoded, and its columns where the stream keeps them. A stream of a schema without
/// batches holds none.
pub fn decode_batch(bytes: &Vec<u8>) -> (decoded: Result<Batch, String>)
    requires
        is_batch_stream(bytes@) || is_schema_stream(bytes@),
    ensures
        match decoded {
            Ok(d) => stream_batches(bytes@) == Ok::<_, ReadStep>(seq![batch_contents(d)]),
            Err(e) => match stream_batches(bytes@) {
                Ok(contents) => contents.len() == 0 && e@ == "no batch in IPC bytes"@,
                Err(step) => exists|error: ReadError|
                    error.step() == step && e@ == #[trigger] decode_error(error),
            },
        },
        forall|batch: Batch|
            batch_fits(batch) && can_read_batch(batch) && #[trigger] batch_stream(batch)
                == bytes@ ==> match decoded {
                Ok(d) => {
                    &&& batch_rows(d) == batch_rows(batch)
                    &&& keeps_columns(batch) ==> batch_columns(d) == batch_columns(batch)
                },
                Err(_) => stream_batches(bytes@) is Err,
            },
        is_schema_stream(bytes@) ==> decoded is Err,
{
    let read = read_batch_stream(bytes);
    proof {
        if read is Ok {
            let batches = read->Ok_0@;
            let contents = batches.map_values(|batch: Batch| batch_contents(batch));
            if batches.len() == 1 {
                assert(contents =~= seq![batch_contents(batches[0])]);
            } else {
                assert(contents =~= Seq::empty());
            }
        }
    }
    first_batch(read)
}

/// The batch that is decoded is the first of those that were read; without one, or where reading
/// failed, there is none.
pub proof fn lemma_first(read: Result<Vec<Batch>, ReadError>, first: Result<Batch, String>)
    requires
        call_ensures(first_batch, (read,), first),
    ensures
        read matches Ok(batches) ==> (batches@.len() > 0 ==> first == Ok::<Batch, String>(
            batches@[0],
        )),
        read matches Ok(batches) ==> (batches@.len() == 0 ==> first is Err),
        read is Err ==> first is Err,
{
}

/// A batch is encoded exactly where its messages are not too large.
pub proof fn lemma_encodes(batch: Batch, encoded: Result<Vec<u8>, String>)
    requires
        call_ensures(encode_batch, (&batch,), encoded),
    ensures
        encoded is Ok <==> schema_fits(batch_schema(batch)) && layouts_fit(batch_layout(batch)),
        encoded matches Ok(bytes) ==> bytes@ == batch_stream(batch),
{
}

/// A batch that is encoded and decoded, where its types can be read back, has the rows it had,
/// and its columns where the stream keeps them; there is no other outcome but that its stream
/// cannot be read.
pub proof fn lemma_batch_back(batch: Batch, bytes: Vec<u8>, decoded: Result<Batch, String>)
    requires
        can_read_batch(batch),
        call_ensures(encode_batch, (&batch,), Ok::<Vec<u8>, String>(bytes)),
        call_ensures(decode_batch, (&bytes,), decoded),
    ensures
        is_batch_stream(bytes@),
        match decoded {
            Ok(back) => batch_rows(back) == batch_rows(batch) && (keeps_columns(batch)
                ==> batch_columns(back) == batch_columns(batch)),
            Err(_) => stream_batches(bytes@) is Err,
        },
{
}

/// What is said of a stream that cannot be written or read names the step, and then says what
/// that step said.
pub proof fn lemma_stream_errors(
    unwritten: WriteError,
    encoded: Result<Vec<u8>, String>,
    unread: ReadError,
    first: Result<Batch, String>,
)
    requires
        call_ensures(encoded_batch, (Err::<Vec<u8>, WriteError>(unwritten),), encoded),
        call_ensures(first_batch, (Err::<Vec<Batch>, ReadError>(unread),), first),
    ensures
        encoded matches Err(e) && e@ == match unwritten {
            WriteError::Create(text) => "failed to create IPC writer: "@ + text@,
            WriteError::Write(text) => "failed to write IPC batch: "@ + text@,
            WriteError::Finish(text) => "failed to finish IPC writer: "@ + text@,
        },
        first matches Err(e) && e@ == match unread {
            ReadError::Create(text) => "failed to create IPC reader for batch: "@ + text@,
            ReadError::Read(text) => "failed to read IPC batches: "@ + text@,
        },
{
}

} // verus!
