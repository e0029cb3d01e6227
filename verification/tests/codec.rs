use std::io::Cursor;
use std::sync::Arc;

use arrow::datatypes::{DataType, Field, Schema};
use arrow::ipc::reader::StreamReader;
use ballista_map_partition::codec::extension::{
    DecodedNode, ExtendedBallistaLogicalCodec, ExtendedBallistaPhysicalCodec, PhysicalNode,
    SchemaError,
};
use ballista_map_partition::codec::framing::{
    decode_length_delimited, decode_length_delimited_list, encode_length_delimited,
    encode_length_delimited_list, take_frame,
};
use ballista_map_partition::codec::messages::{
    LExtension, LMessage, MapPartitionFields, PExtension, PMessage,
};
use ballista_map_partition::error::{ErrorKind, PlanError};
use ballista_map_partition::expr::Expr;
use ballista_map_partition::logical::map_partition::MapPartition;
use ballista_map_partition::physical::map_partition_exec::{
    MapPartitionExec, Partitioning, PlanInput,
};

type Logical = MapPartition<u32, String>;
type Physical = MapPartitionExec<u32, String>;

fn expr(text: &str) -> Expr<String> {
    Expr {
        value: Arc::new(text.to_string()),
        debug: format!("Column({text})"),
        display: text.to_string(),
    }
}

fn schema() -> Arc<Schema> {
    Arc::new(Schema::new(vec![Field::new("a", DataType::Int64, true)]))
}

fn serialize(expr: &Expr<String>) -> Result<Vec<u8>, String> {
    if *expr.value == "unserialisable" {
        return Err("no wire form".to_string());
    }
    Ok(expr.value.as_bytes().to_vec())
}

fn decode(bytes: &Vec<u8>) -> Result<String, String> {
    if bytes.first() == Some(&b'!') {
        return Err("not a node".to_string());
    }
    String::from_utf8(bytes.clone()).map_err(|e| e.to_string())
}

fn parse(node: &String) -> Result<Expr<String>, String> {
    if node == "unparsable" {
        return Err("unknown column".to_string());
    }
    Ok(expr(node))
}

fn read_schema(bytes: &Vec<u8>) -> Result<Arc<Schema>, SchemaError> {
    if bytes.is_empty() {
        return Err(SchemaError::Decode("end of stream".to_string()));
    }
    if bytes[0] == 0 {
        return Err(SchemaError::Invalid("duplicate field".to_string()));
    }
    let reader = StreamReader::try_new(Cursor::new(bytes), None)
        .map_err(|e| SchemaError::Decode(e.to_string()))?;
    Ok(reader.schema())
}

fn logical(by: Option<&str>, num: Option<usize>, hash: Option<(Vec<&str>, usize)>) -> Logical {
    MapPartition::new(
        "/tmp/test.so".to_string(),
        "my_proc".to_string(),
        schema(),
        1,
        by.map(expr),
        num,
        hash.map(|(exprs, n)| (exprs.into_iter().map(expr).collect(), n)),
    )
}

fn physical(by: Option<&str>, num: usize, hash: Option<(Vec<&str>, usize)>) -> Physical {
    MapPartitionExec::new(
        "/tmp/test.so".to_string(),
        "my_proc".to_string(),
        schema(),
        PlanInput { plan: 1, partitioning: Partitioning::UnknownPartitioning(4) },
        by.map(expr),
        num,
        hash.map(|(exprs, n)| (exprs.into_iter().map(expr).collect(), n)),
    )
}

fn logical_fields(node: &Logical) -> MapPartitionFields {
    let message = ExtendedBallistaLogicalCodec::default().try_encode(Some(node), serialize);
    match message.unwrap().unwrap().extension {
        Some(LExtension::MapPartition(fields)) => fields,
        None => panic!("no extension"),
    }
}

fn decode_logical(fields: MapPartitionFields, inputs: Vec<u32>) -> Result<Logical, PlanError> {
    let message = Some(LMessage { extension: Some(LExtension::MapPartition(fields)) });
    let codec = ExtendedBallistaLogicalCodec::default();
    let node = codec.try_decode(message, inputs, read_schema, decode, parse)?;
    Ok(node.unwrap())
}

fn decode_physical(message: PMessage, n: usize) -> Result<DecodedNode<u32, String>, PlanError> {
    decode_physical_bytes(Some(message), n)
}

fn decode_physical_bytes(
    message: Option<PMessage>,
    n: usize,
) -> Result<DecodedNode<u32, String>, PlanError> {
    let inputs = (0..n)
        .map(|_| PlanInput { plan: 1, partitioning: Partitioning::UnknownPartitioning(4) })
        .collect();
    ExtendedBallistaPhysicalCodec::default().try_decode(message, inputs, read_schema, decode, parse)
}

#[test]
fn frames_are_messages_behind_their_lengths() {
    assert_eq!(encode_length_delimited(&vec![7, 8]).unwrap(), vec![2, 7, 8]);
    assert_eq!(encode_length_delimited(&vec![]).unwrap(), vec![0]);
    let long = vec![9; 300];
    let framed = encode_length_delimited(&long).unwrap();
    assert_eq!(framed[..2], [0xAC, 0x02]);
    assert_eq!(framed.len(), 302);
    assert_eq!(decode_length_delimited(&framed).unwrap(), long);
    let list = encode_length_delimited_list(&vec![vec![1], vec![], vec![2, 3]]).unwrap();
    assert_eq!(list, vec![1, 1, 0, 2, 2, 3]);
}

#[test]
fn framed_messages_are_read_back() {
    let items = vec![vec![1, 2, 3], vec![], vec![0; 128], vec![255]];
    let bytes = encode_length_delimited_list(&items).unwrap();
    let (read, error) = decode_length_delimited_list(&bytes);
    assert_eq!(read, items);
    assert!(error.is_none());
    let (read, error) = decode_length_delimited_list(&[]);
    assert!(read.is_empty());
    assert!(error.is_none());
}

#[test]
fn a_malformed_message_ends_a_list() {
    let (read, error) = decode_length_delimited_list(&[1, 5, 3, 1]);
    assert_eq!(read, vec![vec![5]]);
    let error = error.unwrap();
    assert_eq!(error.kind, ErrorKind::Internal);
    assert_eq!(
        error.message,
        "failed to decode expr list: failed to decode Protobuf message: buffer underflow"
    );
    let (read, error) = decode_length_delimited_list(&[0x80]);
    assert!(read.is_empty());
    assert_eq!(
        error.unwrap().message,
        "failed to decode expr list: failed to decode Protobuf message: invalid varint"
    );
}

#[test]
fn a_frame_leaves_what_follows() {
    let (item, rest) = take_frame(&[1, 5, 9, 9]).unwrap();
    assert_eq!(item, vec![5]);
    assert_eq!(rest, &[9, 9]);
    assert_eq!(decode_length_delimited(&vec![1, 5, 9, 9]).unwrap(), vec![5]);
    let overlong = vec![0x80, 0x80, 0x80, 0x80, 0x80, 0x80, 0x80, 0x80, 0x80, 0x02];
    assert!(decode_length_delimited(&overlong).is_err());
    let padded = vec![0x81, 0x00, 7];
    assert_eq!(decode_length_delimited(&padded).unwrap(), vec![7]);
}

#[test]
fn should_round_trip_logical_plan() {
    let plain = logical(None, None, None);
    let read = decode_logical(logical_fields(&plain), vec![1]).unwrap();
    assert!(plain == read);
    let by = logical(Some("region"), Some(10), Some((vec!["region", "city"], 10)));
    let read = decode_logical(logical_fields(&by), vec![1]).unwrap();
    assert!(by == read);
    assert_eq!(by.fmt_for_explain(), read.fmt_for_explain());
}

#[test]
fn should_round_trip_physical_plan() {
    for node in [
        physical(None, 0, None),
        physical(Some("region"), 4, Some((vec!["region"], 4))),
        physical(None, 3, Some((vec!["x", "y"], 4))),
    ] {
        let codec = ExtendedBallistaPhysicalCodec::default();
        let message = codec.try_encode(PhysicalNode::MapPartition(&node), serialize).unwrap();
        match decode_physical(message, 1).unwrap() {
            DecodedNode::MapPartition(read) => {
                assert_eq!(format!("{node:?}"), format!("{read:?}"));
                assert_eq!(node.fmt_as(), read.fmt_as());
            }
            other => panic!("{other:?}"),
        }
    }
}

#[test]
fn a_message_has_the_fields_of_the_node() {
    let fields = logical_fields(&logical(Some("ab"), Some(3), Some((vec!["c", "de"], 5))));
    assert_eq!(fields.so_path, "/tmp/test.so");
    assert_eq!(fields.fn_name, "my_proc");
    assert_eq!(fields.distribute_by_expr, vec![2, b'a', b'b']);
    assert_eq!(fields.hash_partition_exprs, vec![1, b'c', 2, b'd', b'e']);
    assert_eq!(fields.hash_partition_count, 5);
    assert_eq!(fields.num_partitions, 3);
    let fields = logical_fields(&logical(None, None, None));
    assert!(fields.distribute_by_expr.is_empty());
    assert!(fields.hash_partition_exprs.is_empty());
    assert_eq!(fields.hash_partition_count, 0);
    assert_eq!(fields.num_partitions, 0);
    assert_eq!(*read_schema(&fields.output_schema).unwrap(), *schema());
}

#[test]
fn zero_partitions_are_read_as_none() {
    let node = logical(Some("ab"), Some(0), Some((vec!["c"], 0)));
    let read = decode_logical(logical_fields(&node), vec![1]).unwrap();
    assert_eq!(read.num_partitions, None);
    assert!(read.hash_partition.is_none());
}

#[test]
fn other_nodes_are_not_encoded_as_logical() {
    let message =
        ExtendedBallistaLogicalCodec::default().try_encode::<u32, String, _>(None, serialize);
    assert!(message.unwrap().is_none());
}

#[test]
fn expressions_without_a_wire_form_are_reported() {
    let codec = ExtendedBallistaLogicalCodec::default();
    let node = logical(Some("unserialisable"), Some(1), Some((vec!["a"], 1)));
    let error = codec.try_encode(Some(&node), serialize).unwrap_err();
    assert_eq!(error.message, "failed to serialize distribute_by expr: no wire form");
    let node = logical(Some("unserialisable"), Some(1), Some((vec!["a", "unserialisable"], 1)));
    let error = codec.try_encode(Some(&node), serialize).unwrap_err();
    assert_eq!(error.message, "failed to serialize hash partition exprs: no wire form");
    let node = physical(None, 1, Some((vec!["unserialisable"], 1)));
    let error = ExtendedBallistaPhysicalCodec::default()
        .try_encode(PhysicalNode::MapPartition(&node), serialize)
        .unwrap_err();
    assert_eq!(error.message, "failed to serialize physical hash partition exprs: no wire form");
    assert_eq!(error.kind, ErrorKind::Internal);
}

#[test]
fn unreadable_messages_are_reported() {
    let node = logical(Some("k"), Some(2), Some((vec!["a", "b"], 2)));
    let error = decode_logical(logical_fields(&node), vec![]).unwrap_err();
    assert_eq!(error.kind, ErrorKind::Plan);
    assert_eq!(error.message, "MapPartition expects single input");

    let mut fields = logical_fields(&node);
    fields.output_schema = vec![];
    let error = decode_logical(fields, vec![1]).unwrap_err();
    assert_eq!(error.message, "failed to decode schema from IPC: end of stream");

    let mut fields = logical_fields(&node);
    fields.output_schema = vec![0];
    let error = decode_logical(fields, vec![1]).unwrap_err();
    assert_eq!(error.message, "invalid schema: duplicate field");

    let mut fields = logical_fields(&node);
    fields.hash_partition_exprs = vec![1, b'!', 9];
    let error = decode_logical(fields, vec![1]).unwrap_err();
    assert_eq!(error.message, "failed to decode expr list: not a node");

    let mut fields = logical_fields(&node);
    fields.hash_partition_exprs = vec![1, b'a', 9];
    let error = decode_logical(fields, vec![1]).unwrap_err();
    assert_eq!(
        error.message,
        "failed to decode expr list: failed to decode Protobuf message: buffer underflow"
    );

    let node = logical(None, None, Some((vec!["unparsable"], 2)));
    let error = decode_logical(logical_fields(&node), vec![1]).unwrap_err();
    assert_eq!(error.message, "failed to parse hash partition exprs: unknown column");

    let node = logical(Some("unparsable"), Some(2), None);
    let error = decode_logical(logical_fields(&node), vec![1]).unwrap_err();
    assert_eq!(error.message, "failed to parse distribute_by expr: unknown column");

    let mut fields = logical_fields(&node);
    fields.distribute_by_expr = vec![1, b'!'];
    let error = decode_logical(fields, vec![1]).unwrap_err();
    assert_eq!(error.message, "failed to decode distribute_by expr: not a node");

    let mut fields = logical_fields(&node);
    fields.distribute_by_expr = vec![5];
    let error = decode_logical(fields, vec![1]).unwrap_err();
    assert_eq!(
        error.message,
        "failed to decode distribute_by expr: failed to decode Protobuf message: buffer underflow"
    );
}

#[test]
fn what_holds_no_node_is_left_to_the_codec_inside() {
    let codec = ExtendedBallistaLogicalCodec::default();
    for message in [None, Some(LMessage { extension: None })] {
        let node = codec.try_decode::<u32, String, String, _, _, _>(
            message,
            vec![1],
            read_schema,
            decode,
            parse,
        );
        assert!(node.unwrap().is_none());
    }
    for message in [None, Some(PMessage { extension: None })] {
        let node = decode_physical_bytes(message, 1);
        assert!(matches!(node, Ok(DecodedNode::Unknown)));
    }
}

#[test]
fn nodes_of_other_codecs_pass_through() {
    let codec = ExtendedBallistaPhysicalCodec::default();
    let other: PhysicalNode<'_, u32, String> = PhysicalNode::Other(Ok(vec![4, 5]));
    let message = codec.try_encode(other, serialize).unwrap();
    assert!(matches!(&message.extension, Some(PExtension::Opaque(b)) if *b == vec![4, 5]));
    assert!(matches!(decode_physical(message, 0), Ok(DecodedNode::Opaque(b)) if b == vec![4, 5]));
    let other: PhysicalNode<'_, u32, String> = PhysicalNode::Other(Err("unknown node".to_string()));
    let error = codec.try_encode(other, serialize).unwrap_err();
    assert_eq!(error.kind, ErrorKind::Internal);
    assert_eq!(error.message, "unknown node");
}

#[test]
fn unreadable_physical_messages_are_reported() {
    let node = physical(None, 1, Some((vec!["unparsable"], 1)));
    let codec = ExtendedBallistaPhysicalCodec::default();
    let message = codec.try_encode(PhysicalNode::MapPartition(&node), serialize).unwrap();
    let error = decode_physical(message, 1).unwrap_err();
    assert_eq!(error.message, "failed to parse physical hash partition exprs: unknown column");
    let message = codec.try_encode(PhysicalNode::MapPartition(&node), serialize).unwrap();
    let error = decode_physical(message, 0).unwrap_err();
    assert_eq!(error.message, "MapPartition expects single input");
}
