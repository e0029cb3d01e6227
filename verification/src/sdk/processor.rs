//! Processors, and the codes that their exported functions return.
use std::sync::Arc;

use arrow::datatypes::Schema;
use vstd::prelude::*;

use crate::batch::Batch;

verus! {

/// What a processor library implements: the processing of a partition, or of the rows of
/// one key in it.
///
/// A processor is made once, fed batch by batch, executed once, fetched from until there
/// is no more, and finished once.
pub trait PartitionProcessor: Send + Sized + 'static {
    /// A processor for rows of the given schema, in the given partition.
    fn new(schema: Arc<Schema>, partition_id: usize) -> Self;

    /// The schema of the input.
    fn schema(&self) -> &Arc<Schema>;

    /// The partition that the processor runs on.
    fn partition_id(&self) -> usize;

    /// Takes a batch of the input.
    fn feed(&mut self, batch: Batch);

    /// Does the work, after all of the input was fed.
    fn execute(&mut self);

    /// The next batch of the output, or nothing where there is no more.
    fn fetch(&mut self) -> Option<Batch>;

    /// Releases what the processor holds.
    fn finish(&mut self) {
    }
}

/// The code for success.
pub const STATUS_OK: i32 = 0;

/// The code for the end of the output.
pub const STATUS_END: i32 = 1;

/// The code for an error.
pub const STATUS_ERROR: i32 = -1;

/// Makes a processor, if the schema could be read.
pub fn init_processor<P: PartitionProcessor>(
    schema: Result<Arc<Schema>, String>,
    partition_id: usize,
) -> (processor: Result<P, String>)
    ensures
        match schema {
            Ok(schema) => processor matches Ok(p) && call_ensures(P::new, (schema, partition_id), p),
            Err(text) => processor == Err::<P, String>(text),
        },
{
    match schema {
        Ok(schema) => Ok(P::new(schema, partition_id)),
        Err(text) => Err(text),
    }
}

/// Feeds a batch, if it could be imported, and gives the code for it: the processor is
/// then left as a call of `feed` with the batch leaves it, and otherwise as it was.
pub fn feed_processor<P: PartitionProcessor>(
    processor: &mut P,
    batch: Result<Batch, String>,
) -> (code: i32)
    ensures
        batch matches Ok(b) ==> {
            &&& code == STATUS_OK
            &&& exists|fed: &mut P|
                {
                    &&& *fed == *old(processor)
                    &&& *final(fed) == *final(processor)
                    &&& #[trigger] call_ensures(P::feed, (fed, b), ())
                }
        },
        batch is Err ==> code == STATUS_ERROR && *final(processor) == *old(processor),
{
    match batch {
        Ok(batch) => {
            processor.feed(batch);
            STATUS_OK
        },
        Err(_) => STATUS_ERROR,
    }
}

/// Executes a processor, and gives the code for it: the processor is left as a call of
/// `execute` on it leaves it.
pub fn execute_processor<P: PartitionProcessor>(processor: &mut P) -> (code: i32)
    ensures
        code == STATUS_OK,
        exists|executed: &mut P|
            {
                &&& *executed == *old(processor)
                &&& *final(executed) == *final(processor)
                &&& #[trigger] call_ensures(P::execute, (executed,), ())
            },
{
    processor.execute();
    STATUS_OK
}

/// `code` is the code for the fetched batch: the end where there is none, success where
/// `export` hands it out, an error where it cannot.
pub open spec fn fetch_code<F: Fn(Batch) -> Result<(), String>>(
    export: F,
    fetched: Option<Batch>,
    code: i32,
) -> bool {
    match fetched {
        Some(batch) => exists|done: Result<(), String>| #[trigger]
            call_ensures(export, (batch,), done) && code == if done is Ok {
                STATUS_OK
            } else {
                STATUS_ERROR
            },
        None => code == STATUS_END,
    }
}

/// Hands a fetched batch out, and gives the code for it.
pub fn hand_out<F: Fn(Batch) -> Result<(), String>>(fetched: Option<Batch>, export: F) -> (code:
    i32)
    requires
        forall|batch: Batch| call_requires(export, (batch,)),
    ensures
        fetch_code(export, fetched, code),
{
    match fetched {
        Some(batch) => match export(batch) {
            Ok(()) => STATUS_OK,
            Err(_) => STATUS_ERROR,
        },
        None => STATUS_END,
    }
}

/// Fetches from a processor, hands the batch out, and gives the code for it: what is
/// handed out is what a call of `fetch` gives, and the processor is left as that call
/// leaves it.
pub fn fetch_processor<P: PartitionProcessor, F: Fn(Batch) -> Result<(), String>>(
    processor: &mut P,
    export: F,
) -> (code: i32)
    requires
        forall|batch: Batch| call_requires(export, (batch,)),
    ensures
        exists|from: &mut P, fetched: Option<Batch>|
            {
                &&& *from == *old(processor)
                &&& *final(from) == *final(processor)
                &&& #[trigger] call_ensures(P::fetch, (from,), fetched)
                &&& fetch_code(export, fetched, code)
            },
{
    let fetched = processor.fetch();
    hand_out(fetched, export)
}

/// Finishes a processor, and gives the code for it: the processor is left as a call of
/// `finish` on it leaves it.
pub fn finish_processor<P: PartitionProcessor>(processor: &mut P) -> (code: i32)
    ensures
        code == STATUS_OK,
        exists|finished: &mut P|
            {
                &&& *finished == *old(processor)
                &&& *final(finished) == *final(processor)
                &&& #[trigger] call_ensures(P::finish, (finished,), ())
            },
{
    processor.finish();
    STATUS_OK
}

/// The code of a fetch: one at the end of the output, zero for a batch that is handed out, minus
/// one for a batch that cannot be.
pub proof fn lemma_handed_out<F: Fn(Batch) -> Result<(), String>>(
    fetched: Option<Batch>,
    export: F,
    code: i32,
)
    requires
        call_ensures(hand_out::<F>, (fetched, export), code),
    ensures
        fetched is None <==> code == 1,
        code == 1 || code == 0 || code == -1,
        fetched matches Some(batch) ==> {
            &&& code == 0 ==> exists|done: Result<(), String>| #[trigger]
                call_ensures(export, (batch,), done) && done is Ok
            &&& code == -1 ==> exists|done: Result<(), String>| #[trigger]
                call_ensures(export, (batch,), done) && done is Err
        },
{
}

/// Feeding gives zero for a batch, which the processor is then fed, and minus one where there is
/// none, which leaves the processor as it was; executing and finishing give zero.
pub proof fn lemma_codes<P: PartitionProcessor>(batch: Result<Batch, String>, code: i32)
    ensures
        forall|p: &mut P| #[trigger]
            call_ensures(feed_processor::<P>, (p, batch), code) ==> {
                &&& batch is Ok ==> code == 0
                &&& batch is Err ==> code == -1 && *final(p) == *p
            },
        forall|p: &mut P| #[trigger] call_ensures(execute_processor::<P>, (p,), code) ==> code == 0,
        forall|p: &mut P| #[trigger] call_ensures(finish_processor::<P>, (p,), code) ==> code == 0,
{
}

/// A processor is made for the schema that was read and the given partition; where the schema
/// could not be read, that is what is said.
pub proof fn lemma_initialised<P: PartitionProcessor>(
    schema: Result<Arc<Schema>, String>,
    partition_id: usize,
    processor: Result<P, String>,
)
    requires
        call_ensures(init_processor::<P>, (schema, partition_id), processor),
    ensures
        schema matches Ok(s) ==> (processor matches Ok(p) && call_ensures(
            P::new,
            (s, partition_id),
            p,
        )),
        schema matches Err(text) ==> processor == Err::<P, String>(text),
{
}

} // verus!
