use std::sync::Arc;

use arrow::array::{ArrayRef, Int32Array};
use arrow::datatypes::{DataType, Field, Schema};
use arrow::record_batch::RecordBatch;
use ballista_map_partition::batch::Batch;
use ballista_map_partition::sdk::processor::{
    execute_processor, feed_processor, fetch_processor, finish_processor, hand_out, init_processor,
    PartitionProcessor, STATUS_END, STATUS_ERROR, STATUS_OK,
};

struct Identity {
    schema: Arc<Schema>,
    partition_id: usize,
    held: Vec<Batch>,
    executed: bool,
}

impl PartitionProcessor for Identity {
    fn new(schema: Arc<Schema>, partition_id: usize) -> Self {
        Identity { schema, partition_id, held: vec![], executed: false }
    }

    fn schema(&self) -> &Arc<Schema> {
        &self.schema
    }

    fn partition_id(&self) -> usize {
        self.partition_id
    }

    fn feed(&mut self, batch: Batch) {
        self.held.push(batch);
    }

    fn execute(&mut self) {
        self.executed = true;
        self.held.reverse();
    }

    fn fetch(&mut self) -> Option<Batch> {
        self.held.pop()
    }
}

fn schema() -> Arc<Schema> {
    Arc::new(Schema::new(vec![Field::new("n", DataType::Int32, false)]))
}

fn batch(n: i32) -> Batch {
    let column: ArrayRef = Arc::new(Int32Array::from(vec![n]));
    Batch(RecordBatch::try_new(schema(), vec![column]).unwrap())
}

#[test]
fn a_processor_runs_through_its_codes() {
    let mut p: Identity = init_processor(Ok(schema()), 3).unwrap();
    assert_eq!(p.partition_id(), 3);
    assert_eq!(*p.schema(), schema());
    assert_eq!(feed_processor(&mut p, Ok(batch(1))), STATUS_OK);
    assert_eq!(feed_processor(&mut p, Ok(batch(2))), STATUS_OK);
    assert_eq!(feed_processor(&mut p, Err("no array".to_string())), STATUS_ERROR);
    assert_eq!(p.held.len(), 2);
    assert_eq!(execute_processor(&mut p), STATUS_OK);
    assert!(p.executed);
    assert_eq!(fetch_processor(&mut p, |_| Ok(())), STATUS_OK);
    assert_eq!(fetch_processor(&mut p, |_| Err("no slot".to_string())), STATUS_ERROR);
    assert_eq!(fetch_processor(&mut p, |_| Ok(())), STATUS_END);
    assert_eq!(finish_processor(&mut p), STATUS_OK);
}

#[test]
fn a_processor_needs_a_schema() {
    let refused: Result<Identity, String> = init_processor(Err("no schema".to_string()), 0);
    assert_eq!(refused.err().unwrap(), "no schema");
}

#[test]
fn codes_say_what_was_fetched() {
    assert_eq!((STATUS_OK, STATUS_END, STATUS_ERROR), (0, 1, -1));
    assert_eq!(hand_out(None, |_| Ok(())), 1);
    assert_eq!(hand_out(Some(batch(1)), |_| Ok(())), 0);
    assert_eq!(hand_out(Some(batch(1)), |_| Err(String::new())), -1);
}
