use std::cmp::Ordering;
use std::collections::HashMap;
use std::sync::Arc;

use arrow::array::{Array, ArrayRef, Int32Array, StringViewArray, StructArray};
use arrow::datatypes::{DataType, Field, Fields, Schema};
use ballista_map_partition::logical::map_partition::{HashPart, MapPartition};
use ballista_map_partition::physical::map_partition_exec::encode_schema_to_ipc;
use ballista_map_partition::schema::{encode_schema, try_reread_schema};
use ballista_map_partition::size::{check_arrays_fit, check_schema_fits};

/// A schema of `n` structs of `n` fields each, all of them the same.
fn wide(n: usize) -> Schema {
    let leaf = Arc::new(Field::new("", DataType::Null, true));
    let leaves: Fields = (0..n).map(|_| leaf.clone()).collect();
    let row = Arc::new(Field::new("", DataType::Struct(leaves), true));
    let rows: Fields = (0..n).map(|_| row.clone()).collect();
    Schema::new(rows)
}

fn described() -> Schema {
    let entry = |text: &str| HashMap::from([(text.to_string(), text.to_string())]);
    let item = Field::new("item", DataType::Utf8, true).with_metadata(entry("item"));
    let list = Field::new("l", DataType::List(Arc::new(item)), true).with_metadata(entry("list"));
    Schema::new_with_metadata(vec![list], entry("schema"))
}

fn node(schema: Schema) -> MapPartition<u32, String> {
    let schema = Arc::new(schema);
    MapPartition::new("/tmp/p.so".to_string(), "proc".to_string(), schema, 1, None, None, None)
}

#[test]
fn an_ordinary_schema_fits() {
    assert!(check_schema_fits(&Schema::empty()));
    assert!(check_schema_fits(&described()));
    assert!(check_schema_fits(&wide(100)));
    let reread = try_reread_schema(&described()).unwrap().unwrap();
    assert_eq!(*reread, described());
}

#[test]
fn a_schema_of_too_many_fields_does_not_fit() {
    assert!(!check_schema_fits(&wide(2900)));
}

#[test]
fn a_schema_that_does_not_fit_is_not_encoded() {
    assert_eq!(
        encode_schema(&wide(2900)).unwrap_err(),
        "failed to create IPC writer for schema: the message would take more than two gigabytes"
    );
}

#[test]
fn a_plan_message_refuses_a_schema_that_does_not_fit() {
    assert_eq!(
        encode_schema_to_ipc(&wide(2900)).unwrap_err().message,
        "failed to create schema IPC writer: the message would take more than two gigabytes"
    );
}

#[test]
fn a_node_without_an_encoded_schema_comes_first() {
    let order = node(wide(2900)).partial_cmp(&node(described()));
    assert_eq!(order, Some(Ordering::Less));
}

#[test]
fn a_schema_that_does_not_fit_is_left_out_of_the_hash() {
    let bytes = |node: &MapPartition<u32, String>| {
        node.hash_parts().iter().filter(|part| matches!(part, HashPart::Bytes(_))).count()
    };
    assert_eq!(bytes(&node(described())), 1);
    assert_eq!(bytes(&node(wide(2900))), 0);
}

#[test]
fn ordinary_arrays_fit() {
    let views: ArrayRef = Arc::new(StringViewArray::from(vec!["a text of more than twelve bytes"]));
    let numbers: ArrayRef = Arc::new(Int32Array::from(vec![1]));
    let field = Arc::new(Field::new("n", DataType::Int32, true));
    let structs = StructArray::from(vec![(field, numbers)]);
    assert!(check_arrays_fit(&vec![views.to_data(), structs.to_data()]));
    assert!(check_arrays_fit(&vec![]));
}
