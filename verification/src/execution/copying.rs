//! Copies of batches that hold on to nothing of a processor library.
use vstd::prelude::*;

use crate::batch::{
    batch_columns, batch_contents, batch_fits, batch_rows, batch_schema, batch_stream,
    can_read_batch, check_read_batch, is_written, keeps_columns, read_batch_stream,
    stream_batches, write_batch, Batch, ReadError, ReadStep, WriteError,
};
use crate::error::{internal_error, ErrorKind, PlanError};
use crate::schema::too_large;
use crate::size::schema_fits;

verus! {

/// What copying says where the stream cannot be written.
pub open spec fn write_error(error: WriteError) -> (ErrorKind, Seq<char>) {
    match error {
        WriteError::Create(e) => internal_error("deep copy writer: "@, e@),
        WriteError::Write(e) => internal_error("deep copy write: "@, e@),
        WriteError::Finish(e) => internal_error("deep copy finish: "@, e@),
    }
}

/// The stream of a batch that is to be copied, as it was written.
pub fn copy_stream(written: Result<Vec<u8>, WriteError>) -> (bytes: Result<Vec<u8>, PlanError>)
    ensures
        match written {
            Ok(w) => bytes == Ok::<Vec<u8>, PlanError>(w),
            Err(error) => bytes matches Err(e) && e@ == write_error(error),
        },
{
    match written {
        Ok(bytes) => Ok(bytes),
        Err(WriteError::Create(e)) => Err(PlanError::internal("deep copy writer: ", e.as_str())),
        Err(WriteError::Write(e)) => Err(PlanError::internal("deep copy write: ", e.as_str())),
        Err(WriteError::Finish(e)) => Err(PlanError::internal("deep copy finish: ", e.as_str())),
    }
}

/// What copying says where the stream cannot be read.
pub open spec fn copy_error(error: ReadError) -> (ErrorKind, Seq<char>) {
    match error {
        ReadError::Create(e) => internal_error("deep copy reader: "@, e@),
        ReadError::Read(e) => internal_error("deep copy read: "@, e@),
    }
}

/// `copied` is the last of the batches that were read out of the stream of a copy.
pub open spec fn is_last<B>(read: Result<Vec<B>, ReadError>, copied: Result<B, PlanError>) -> bool {
    match read {
        Ok(batches) => if batches@.len() > 0 {
            copied == Ok::<B, PlanError>(batches@.last())
        } else {
            copied matches Err(e) && e@ == (ErrorKind::Internal, "deep copy: empty stream"@)
        },
        Err(error) => copied matches Err(e) && e@ == copy_error(error),
    }
}

/// The last of the batches that were read out of the stream of a copy.
pub fn copied_batch<B>(read: Result<Vec<B>, ReadError>) -> (copied: Result<B, PlanError>)
    ensures
        is_last(read, copied),
{
    match read {
        Ok(batches) => {
            let mut batches = batches;
            match batches.pop() {
                Some(batch) => Ok(batch),
                None => Err(PlanError::new(ErrorKind::Internal, "deep copy: empty stream")),
            }
        },
        Err(ReadError::Create(e)) => Err(PlanError::internal("deep copy reader: ", e.as_str())),
        Err(ReadError::Read(e)) => Err(PlanError::internal("deep copy read: ", e.as_str())),
    }
}

/// Copies a batch by way of a stream: the last of the batches that `read` gives for what
/// `write` gives.
pub fn copy_with<
    B,
    W: Fn(&B) -> Result<Vec<u8>, WriteError>,
    R: Fn(&Vec<u8>) -> Result<Vec<B>, ReadError>,
>(batch: &B, write: W, read: R) -> (copied: Result<B, PlanError>)
    requires
        call_requires(write, (batch,)),
        forall|bytes: Vec<u8>|
            call_ensures(write, (batch,), Ok::<Vec<u8>, WriteError>(bytes)) ==> #[trigger]
            call_requires(read, (&bytes,)),
    ensures
        exists|written: Result<Vec<u8>, WriteError>|
            {
                &&& #[trigger] call_ensures(write, (batch,), written)
                &&& match written {
                    Ok(bytes) => exists|found: Result<Vec<B>, ReadError>| #[trigger]
                        call_ensures(read, (&bytes,), found) && is_last(found, copied),
                    Err(error) => copied matches Err(e) && e@ == write_error(error),
                }
            },
{
    let written = write(batch);
    assert(call_ensures(write, (batch,), written));
    match copy_stream(written) {
        Ok(bytes) => {
            let found = read(&bytes);
            assert(call_ensures(read, (&bytes,), found));
            copied_batch(found)
        },
        Err(e) => Err(e),
    }
}

/// `copied` is the copy of the batch: where its stream can be read, the batch that reading
/// gives, with the rows of the batch, and with its columns where the stream keeps them; where
/// a message of the stream is too large, that of the schema or that of the rows, or
/// where a step of reading fails, the error of that step.
pub open spec fn is_copy(batch: Batch, copied: Result<Batch, PlanError>) -> bool {
    match copied {
        Ok(copy) => {
            &&& batch_fits(batch)
            &&& stream_batches(batch_stream(batch)) == Ok::<_, ReadStep>(
                seq![batch_contents(copy)],
            )
            &&& batch_rows(copy) == batch_rows(batch)
            &&& keeps_columns(batch) ==> batch_columns(copy) == batch_columns(batch)
        },
        Err(e) => if !schema_fits(batch_schema(batch)) {
            e@ == internal_error("deep copy writer: "@, too_large())
        } else if !batch_fits(batch) {
            e@ == internal_error("deep copy write: "@, too_large())
        } else {
            exists|error: ReadError|
                stream_batches(batch_stream(batch)) == Err::<
                    Seq<(Seq<Seq<u8>>, Seq<Seq<char>>)>,
                    ReadStep,
                >(error.step()) && e@ == #[trigger] copy_error(error)
        },
    }
}

/// Copies a batch by way of its stream encoding.
pub fn deep_copy_batch(batch: &Batch) -> (copied: Result<Batch, PlanError>)
    requires
        can_read_batch(*batch),
    ensures
        is_copy(*batch, copied),
{
    let copied = copy_with(batch, write_batch, read_batch_stream);
    proof {
        let written = choose|written: Result<Vec<u8>, WriteError>|
            {
                &&& #[trigger] call_ensures(write_batch, (batch,), written)
                &&& match written {
                    Ok(bytes) => exists|found: Result<Vec<Batch>, ReadError>| #[trigger]
                        call_ensures(read_batch_stream, (&bytes,), found) && is_last(found, copied),
                    Err(error) => copied matches Err(e) && e@ == write_error(error),
                }
            };
        assert(is_written(*batch, written));
        if let Ok(bytes) = written {
            let found = choose|found: Result<Vec<Batch>, ReadError>| #[trigger]
                call_ensures(read_batch_stream, (&bytes,), found) && is_last(found, copied);
            assert(call_ensures(read_batch_stream, (&bytes,), found));
            if found is Ok {
                let batches = found->Ok_0@;
                assert(batches.map_values(|batch: Batch| batch_contents(batch)) =~= seq![
                    batch_contents(batches[0]),
                ]);
            }
        }
    }
    copied
}

/// Copies a batch where it can be read back out of its stream encoding, and nothing
/// otherwise.
pub fn try_deep_copy_batch(batch: &Batch) -> (copied: Option<Result<Batch, PlanError>>)
    ensures
        copied is Some <==> can_read_batch(*batch),
        copied matches Some(c) ==> is_copy(*batch, c),
{
    if check_read_batch(batch) {
        Some(deep_copy_batch(batch))
    } else {
        None
    }
}

/// The copy is the last of the batches that were read; without one, or where reading failed,
/// there is none.
pub proof fn lemma_last<B>(read: Result<Vec<B>, ReadError>, copied: Result<B, PlanError>)
    requires
        call_ensures(copied_batch::<B>, (read,), copied),
    ensures
        read matches Ok(batches) ==> (batches@.len() > 0 ==> copied == Ok::<B, PlanError>(
            batches@[batches@.len() - 1],
        )),
        read matches Ok(batches) ==> (batches@.len() == 0 ==> copied is Err),
        read is Err ==> copied is Err,
{
}

/// Where the stream that `write` gives is read by `read` as the batch alone, the copy is the
/// batch.
pub proof fn lemma_copied_back<
    B,
    W: Fn(&B) -> Result<Vec<u8>, WriteError>,
    R: Fn(&Vec<u8>) -> Result<Vec<B>, ReadError>,
>(batch: B, write: W, read: R, copied: Result<B, PlanError>)
    requires
        call_ensures(copy_with::<B, W, R>, (&batch, write, read), copied),
        forall|written: Result<Vec<u8>, WriteError>| #[trigger]
            call_ensures(write, (&batch,), written) ==> written is Ok,
        forall|bytes: Vec<u8>, found: Result<Vec<B>, ReadError>|
            call_ensures(write, (&batch,), Ok::<Vec<u8>, WriteError>(bytes))
                && #[trigger] call_ensures(read, (&bytes,), found) ==> (found matches Ok(f) && f@
                == seq![batch]),
    ensures
        copied == Ok::<B, PlanError>(batch),
{
}

/// A copy of a batch has its rows, and its columns where the stream keeps them.
pub proof fn lemma_deep_copy(batch: Batch, copied: Result<Batch, PlanError>)
    requires
        call_ensures(deep_copy_batch, (&batch,), copied),
    ensures
        copied matches Ok(copy) ==> {
            &&& batch_rows(copy) == batch_rows(batch)
            &&& keeps_columns(batch) ==> batch_columns(copy) == batch_columns(batch)
        },
        batch_fits(batch) && stream_batches(batch_stream(batch)) is Ok ==> copied is Ok,
{
}

/// What is said of a copy whose stream cannot be written or read names the step, and then says
/// what that step said.
pub proof fn lemma_copy_errors<B>(
    unwritten: WriteError,
    bytes: Result<Vec<u8>, PlanError>,
    unread: ReadError,
    copied: Result<B, PlanError>,
)
    requires
        call_ensures(copy_stream, (Err::<Vec<u8>, WriteError>(unwritten),), bytes),
        call_ensures(copied_batch::<B>, (Err::<Vec<B>, ReadError>(unread),), copied),
    ensures
        bytes matches Err(e) && e.kind == ErrorKind::Internal && e.message@ == match unwritten {
            WriteError::Create(text) => "deep copy writer: "@ + text@,
            WriteError::Write(text) => "deep copy write: "@ + text@,
            WriteError::Finish(text) => "deep copy finish: "@ + text@,
        },
        copied matches Err(e) && e.kind == ErrorKind::Internal && e.message@ == match unread {
            ReadError::Create(text) => "deep copy reader: "@ + text@,
            ReadError::Read(text) => "deep copy read: "@ + text@,
        },
{
}

} // verus!
