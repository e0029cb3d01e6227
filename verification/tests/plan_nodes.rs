use std::cmp::Ordering;
use std::collections::HashMap;
use std::io::Cursor;
use std::sync::Arc;

use arrow::datatypes::{DataType, Field, Schema};
use arrow::ipc::reader::StreamReader;
use ballista_map_partition::dataframe::map_partition::{map_partition, MapPartitionBuilder};
use ballista_map_partition::error::{ErrorKind, Fault, PlanError};
use ballista_map_partition::expr::{dup_hash, Expr};
use ballista_map_partition::logical::map_partition::{HashPart, MapPartition};
use ballista_map_partition::physical::map_partition_exec::{
    encode_schema_to_ipc, Boundedness, Distribution, EmissionType, MapPartitionExec, Partitioning,
    PlanInput,
};
use ballista_map_partition::physical_optimizer::enforce_distribute_by::{
    is_satisfied, EnforceDistributeBy,
};
use ballista_map_partition::planner::extension_planner::CustomPlannerExtension;
use ballista_map_partition::schema::encode_schema;

type Logical = MapPartition<u32, String>;
type Physical = MapPartitionExec<u32, String>;
type Builder = MapPartitionBuilder<&'static str, u32, String>;

fn expr(text: &str) -> Expr<String> {
    Expr {
        value: Arc::new(text.to_string()),
        debug: format!("Column({text})"),
        display: text.to_string(),
    }
}

fn schema(names: &[&str]) -> Arc<Schema> {
    let fields: Vec<Field> =
        names.iter().map(|name| Field::new(*name, DataType::Utf8, false)).collect();
    Arc::new(Schema::new(fields))
}

fn logical(so_path: &str, input: u32, by: Option<(&str, usize)>) -> Logical {
    MapPartition::new(
        so_path.to_string(),
        "proc".to_string(),
        schema(&["a"]),
        input,
        by.map(|(name, _)| expr(name)),
        by.map(|(_, n)| n),
        by.map(|(name, n)| (vec![expr(name)], n)),
    )
}

fn input(plan: u32, partitioning: Partitioning<String>) -> PlanInput<u32, String> {
    PlanInput { plan, partitioning }
}

fn physical(partitioning: Partitioning<String>, by: Option<(&str, usize)>) -> Physical {
    MapPartitionExec::new(
        "/tmp/p.so".to_string(),
        "proc".to_string(),
        schema(&["a"]),
        input(1, partitioning),
        by.map(|(name, _)| expr(name)),
        by.map(|(_, n)| n).unwrap_or(0),
        by.map(|(name, n)| (vec![expr(name)], n)),
    )
}

fn builder() -> Builder {
    map_partition("session", 7, "/tmp/test.so", "my_proc", Ok(schema(&["a"]))).unwrap()
}

#[test]
fn should_validate_empty_so_path() {
    let result: Result<Builder, PlanError> =
        map_partition("session", 7, "", "test", Ok(schema(&["a"])));
    let error = result.unwrap_err();
    assert_eq!(error.kind, ErrorKind::Configuration);
    assert_eq!(error.message, "so_path cannot be empty");
}

#[test]
fn should_validate_empty_fn_name() {
    let result: Result<Builder, PlanError> =
        map_partition("session", 7, "/path/to.so", "", Ok(schema(&["a"])));
    let error = result.unwrap_err();
    assert_eq!(error.kind, ErrorKind::Configuration);
    assert_eq!(error.message, "fn_name cannot be empty");
}

#[test]
fn an_invalid_output_schema_is_refused() {
    let result: Result<Builder, PlanError> =
        map_partition("session", 7, "/path/to.so", "f", Err("duplicate field".to_string()));
    let error = result.unwrap_err();
    assert_eq!(error.kind, ErrorKind::Configuration);
    assert_eq!(error.message, "invalid output schema: duplicate field");
}

#[test]
fn a_builder_builds_a_plain_node() {
    let (state, node) = builder().build();
    assert_eq!(state, "session");
    assert_eq!(node.so_path, "/tmp/test.so");
    assert_eq!(node.fn_name, "my_proc");
    assert_eq!(node.output_schema, schema(&["a"]));
    assert_eq!(node.input, 7);
    assert!(node.distribute_by.is_none());
    assert!(node.num_partitions.is_none());
    assert!(node.hash_partition.is_none());
}

#[test]
fn a_builder_distributes_by_key() {
    let (_, node) = builder().with_distribute_by(expr("region"), 10).unwrap().build();
    assert_eq!(node.distribute_by.as_ref().unwrap().display, "region");
    assert_eq!(node.num_partitions, Some(10));
    let (exprs, n) = node.hash_partition.unwrap();
    assert_eq!(n, 10);
    assert_eq!(exprs.len(), 1);
    assert_eq!(exprs[0].display, "region");
}

#[test]
fn no_partitions_are_refused() {
    let error = builder().with_distribute_by(expr("region"), 0).unwrap_err();
    assert_eq!(error.kind, ErrorKind::Configuration);
    assert_eq!(error.message, "num_partitions must be > 0");
}

#[test]
fn a_logical_node_shows_itself() {
    let node = logical("/tmp/p.so", 3, None);
    assert_eq!(node.name(), "MapPartition");
    assert_eq!(node.fmt_for_explain(), "MapPartition: so=/tmp/p.so, fn=proc");
    assert_eq!(node.inputs(), vec![&3]);
    assert_eq!(*node.schema(), schema(&["a"]));
    assert!(node.expressions().is_empty());
    let node = logical("/tmp/p.so", 3, Some(("region", 4)));
    assert_eq!(
        node.fmt_for_explain(),
        "MapPartition: so=/tmp/p.so, fn=proc, distribute_by=[region]"
    );
    assert_eq!(node.expressions().len(), 1);
}

#[test]
fn a_node_is_rebuilt_from_its_parts() {
    let node = logical("/tmp/p.so", 3, Some(("region", 4)));
    let same = node.with_exprs_and_inputs(node.expressions(), vec![3]).unwrap();
    assert!(node == same);
    let other = node.with_exprs_and_inputs(vec![expr("city")], vec![5, 6]).unwrap();
    assert_eq!(other.input, 5);
    assert_eq!(other.distribute_by.as_ref().unwrap().display, "city");
    let (exprs, n) = dup_hash(&other.hash_partition).unwrap();
    assert_eq!((exprs[0].display.as_str(), n), ("city", 4));
    let less = node.with_exprs_and_inputs(vec![], vec![5]).unwrap();
    assert!(less.distribute_by.is_none());
    assert_eq!(less.hash_partition.as_ref().unwrap().0[0].display, "region");
    let plain = logical("/tmp/p.so", 3, None);
    let plain = plain.with_exprs_and_inputs(vec![expr("city")], vec![5]).unwrap();
    assert!(plain.distribute_by.is_none());
    let error = node.with_exprs_and_inputs(vec![], vec![]).unwrap_err();
    assert_eq!(error.kind, ErrorKind::Plan);
    assert_eq!(error.message, "MapPartition expects single input");
}

#[test]
fn equal_nodes_compare_and_hash_alike() {
    let a = logical("/tmp/p.so", 3, Some(("region", 4)));
    let b = logical("/tmp/p.so", 3, Some(("region", 4)));
    assert!(a == b);
    assert_eq!(a.partial_cmp(&b), Some(Ordering::Equal));
    assert_eq!(format!("{:?}", a.hash_parts()), format!("{:?}", b.hash_parts()));
    let c = logical("/tmp/p.so", 4, Some(("region", 4)));
    assert!(a != c);
}

#[test]
fn the_first_difference_orders_nodes() {
    let base = || logical("/b.so", 3, Some(("region", 4)));
    let less = logical("/a.so", 9, None);
    assert_eq!(base().partial_cmp(&less), Some(Ordering::Greater));
    assert_eq!(less.partial_cmp(&base()), Some(Ordering::Less));

    let mut other = base();
    other.fn_name = "proc2".to_string();
    assert_eq!(base().partial_cmp(&other), Some(Ordering::Less));

    let mut other = base();
    other.output_schema = schema(&["b"]);
    let mine = encode_schema_to_ipc(&schema(&["a"])).unwrap();
    let theirs = encode_schema_to_ipc(&schema(&["b"])).unwrap();
    assert_ne!(mine, theirs);
    assert_eq!(base().partial_cmp(&other), mine.partial_cmp(&theirs));

    let mut other = base();
    other.input = 2;
    assert_eq!(base().partial_cmp(&other), Some(Ordering::Greater));

    let mut other = base();
    other.hash_partition = None;
    assert_eq!(base().partial_cmp(&other), Some(Ordering::Greater));
    other.hash_partition = Some((vec![expr("region"), expr("x")], 1));
    assert_eq!(base().partial_cmp(&other), Some(Ordering::Less));
    other.hash_partition = Some((vec![expr("region")], 5));
    assert_eq!(base().partial_cmp(&other), Some(Ordering::Less));

    let mut other = base();
    other.distribute_by = Some(expr("alpha"));
    assert_eq!(base().partial_cmp(&other), Some(Ordering::Greater));
    other.distribute_by = None;
    assert_eq!(base().partial_cmp(&other), Some(Ordering::Greater));

    let mut other = base();
    other.num_partitions = Some(9);
    assert_eq!(base().partial_cmp(&other), Some(Ordering::Less));
    other.num_partitions = None;
    assert_eq!(base().partial_cmp(&other), Some(Ordering::Greater));
}

#[test]
fn each_field_counts_for_equality() {
    let base = || logical("/b.so", 3, Some(("region", 4)));
    let mut other = base();
    other.so_path = "/c.so".to_string();
    assert!(base() != other);
    let mut other = base();
    other.fn_name = "f".to_string();
    assert!(base() != other);
    let mut other = base();
    other.output_schema = schema(&["b"]);
    assert!(base() != other);
    let mut other = base();
    other.distribute_by = Some(expr("x"));
    assert!(base() != other);
    let mut other = base();
    other.num_partitions = None;
    assert!(base() != other);
    let mut other = base();
    other.hash_partition = Some((vec![expr("region")], 5));
    assert!(base() != other);
    other.hash_partition = Some((vec![expr("region"), expr("region")], 4));
    assert!(base() != other);
    other.hash_partition = None;
    assert!(base() != other);
}

#[test]
fn the_hash_of_a_node_has_its_parts() {
    let node = logical("/b.so", 3, Some(("region", 4)));
    let parts = node.hash_parts();
    assert_eq!(parts.len(), 8);
    assert!(matches!(&parts[0], HashPart::Text(t) if t == "/b.so"));
    assert!(matches!(&parts[1], HashPart::Text(t) if t == "proc"));
    let bytes = encode_schema_to_ipc(&schema(&["a"])).unwrap();
    assert!(matches!(&parts[2], HashPart::Bytes(b) if *b == bytes));
    assert!(matches!(&parts[3], HashPart::Plan(p) if **p == 3));
    assert!(matches!(&parts[4], HashPart::Text(t) if t == "Column(region)"));
    assert!(matches!(&parts[5], HashPart::Count(Some(4))));
    assert!(matches!(&parts[6], HashPart::Text(t) if t == "Column(region)"));
    assert!(matches!(&parts[7], HashPart::Size(4)));
    assert_eq!(logical("/b.so", 3, None).hash_parts().len(), 5);
}

#[test]
fn an_encoded_schema_is_read_back() {
    let mut metadata = HashMap::new();
    metadata.insert("k".to_string(), "v".to_string());
    let fields = vec![
        Field::new("a", DataType::Utf8, false),
        Field::new("b", DataType::List(Arc::new(Field::new("item", DataType::Int64, true))), true),
    ];
    let written = Schema::new_with_metadata(fields, metadata);
    let bytes = encode_schema_to_ipc(&written).unwrap();
    assert_eq!(bytes, encode_schema(&written).unwrap());
    let reader = StreamReader::try_new(Cursor::new(&bytes), None).unwrap();
    assert_eq!(*reader.schema(), written);
    assert_ne!(bytes, encode_schema(&schema(&["a"])).unwrap());
}

#[test]
fn a_physical_node_maps_partitions_one_to_one() {
    let exec = physical(Partitioning::RoundRobinBatch(6), Some(("region", 4)));
    let properties = exec.properties();
    assert_eq!(properties.partitioning.partition_count(), 6);
    assert!(matches!(properties.partitioning, Partitioning::UnknownPartitioning(6)));
    assert_eq!(properties.emission, EmissionType::Incremental);
    assert_eq!(properties.boundedness, Boundedness::Bounded);
    assert_eq!(properties.schema, schema(&["a"]));

    let exec = physical(Partitioning::RoundRobinBatch(4), Some(("region", 4)));
    match &exec.properties().partitioning {
        Partitioning::Hash(exprs, 4) => assert_eq!(exprs[0].display, "region"),
        other => panic!("{other:?}"),
    }
    let exec = physical(Partitioning::UnknownPartitioning(3), None);
    assert!(matches!(exec.properties().partitioning, Partitioning::UnknownPartitioning(3)));
}

#[test]
fn the_hash_partitioning_carries_over_without_a_key() {
    let exec: Physical = MapPartitionExec::new(
        "/tmp/p.so".to_string(),
        "proc".to_string(),
        schema(&["a"]),
        input(1, Partitioning::RoundRobinBatch(5)),
        None,
        9,
        Some((vec![expr("x"), expr("y")], 5)),
    );
    assert!(matches!(&exec.properties().partitioning, Partitioning::Hash(e, 5) if e.len() == 2));
    let moved = exec.with_new_children(vec![input(2, Partitioning::RoundRobinBatch(9))]).unwrap();
    assert!(matches!(moved.properties().partitioning, Partitioning::UnknownPartitioning(9)));
    assert_eq!(moved.input.plan, 2);
    assert_eq!(moved.hash_partition.as_ref().unwrap().1, 5);
}

#[test]
fn a_physical_node_shows_itself() {
    let exec = physical(Partitioning::UnknownPartitioning(1), None);
    assert_eq!(exec.name(), "MapPartitionExec");
    assert_eq!(exec.fmt_as(), "MapPartitionExec: so=/tmp/p.so, fn=proc");
    assert_eq!(exec.children().len(), 1);
    assert!(matches!(
        exec.required_input_distribution()[..],
        [Distribution::UnspecifiedDistribution]
    ));
    let exec = physical(Partitioning::UnknownPartitioning(1), Some(("region", 4)));
    assert_eq!(exec.fmt_as(), "MapPartitionExec: so=/tmp/p.so, fn=proc, distribute_by=[region]");
    match &exec.required_input_distribution()[..] {
        [Distribution::HashPartitioned(exprs)] => assert_eq!(exprs[0].display, "region"),
        other => panic!("{other:?}"),
    }
    let error = exec.with_new_children(vec![]).unwrap_err();
    assert_eq!(error.kind, ErrorKind::Internal);
    assert_eq!(error.message, "MapPartitionExec expects single input");
}

fn repartition(
    child: PlanInput<u32, String>,
    partitioning: Partitioning<String>,
) -> Result<PlanInput<u32, String>, String> {
    Ok(PlanInput { plan: child.plan + 100, partitioning })
}

#[test]
fn the_rule_repartitions_once() {
    let rule = EnforceDistributeBy;
    assert_eq!(rule.name(), "enforce_distribute_by");
    assert!(rule.schema_check());
    let exec = physical(Partitioning::RoundRobinBatch(1), Some(("region", 10)));
    assert!(!is_satisfied(&exec.input.partitioning, &exec));
    let (exec, changed) = rule.optimize(exec, repartition).unwrap();
    assert!(changed);
    assert_eq!(exec.input.plan, 101);
    assert!(is_satisfied(&exec.input.partitioning, &exec));
    assert!(matches!(&exec.properties().partitioning, Partitioning::Hash(_, 10)));
    assert_eq!(exec.fn_name, "proc");
    let (exec, changed) = rule.optimize(exec, repartition).unwrap();
    assert!(!changed);
    assert_eq!(exec.input.plan, 101);
}

#[test]
fn the_rule_leaves_other_nodes_alone() {
    let rule = EnforceDistributeBy;
    let exec = physical(Partitioning::RoundRobinBatch(1), None);
    let (exec, changed) = rule.optimize(exec, repartition).unwrap();
    assert!(!changed);
    assert_eq!(exec.input.plan, 1);
    let other = Partitioning::Hash(vec![expr("city")], 10);
    let exec = physical(other, Some(("region", 10)));
    let (_, changed) = rule.optimize(exec, repartition).unwrap();
    assert!(changed);
    let other = Partitioning::Hash(vec![expr("region"), expr("city")], 10);
    let exec = physical(other, Some(("region", 10)));
    assert!(!is_satisfied(&exec.input.partitioning, &exec));
    let other = Partitioning::Hash(vec![expr("region")], 11);
    let exec = physical(other, Some(("region", 10)));
    assert!(!is_satisfied(&exec.input.partitioning, &exec));
}

#[test]
fn the_rule_passes_errors_on() {
    let exec = physical(Partitioning::RoundRobinBatch(1), Some(("region", 10)));
    let refuse = |_: PlanInput<u32, String>, _: Partitioning<String>| {
        Err::<PlanInput<u32, String>, String>("no".to_string())
    };
    assert_eq!(EnforceDistributeBy.optimize(exec, refuse).unwrap_err(), "no");
}

fn convert(expr: &Expr<String>, schema: &&'static str) -> Result<Expr<String>, String> {
    if *expr.value == "bad" {
        return Err(format!("cannot plan over {schema}"));
    }
    Ok(Expr {
        value: Arc::new(format!("{}@0", expr.value)),
        debug: format!("physical {}", expr.debug),
        display: format!("{}@0", expr.display),
    })
}

fn plan(node: Option<&Logical>, inputs: usize) -> Result<Option<Physical>, Fault<String>> {
    let children = (0..inputs).map(|_| input(5, Partitioning::RoundRobinBatch(2))).collect();
    CustomPlannerExtension::default().plan_extension(node, &vec!["rows"], children, convert)
}

#[test]
fn a_node_that_distributes_is_planned() {
    let node = logical("/tmp/p.so", 3, Some(("region", 4)));
    let exec = plan(Some(&node), 1).unwrap().unwrap();
    assert_eq!(exec.so_path, "/tmp/p.so");
    assert_eq!(exec.input.plan, 5);
    assert_eq!(exec.num_partitions, 4);
    assert_eq!(exec.distribute_by.as_ref().unwrap().display, "region@0");
    let (exprs, n) = exec.hash_partition.as_ref().unwrap();
    assert_eq!((exprs.len(), exprs[0].display.as_str(), *n), (1, "region@0", 4));
}

#[test]
fn the_hash_partitioning_of_a_node_is_planned() {
    let mut node = logical("/tmp/p.so", 3, None);
    node.hash_partition = Some((vec![expr("x"), expr("y")], 3));
    let exec = plan(Some(&node), 1).unwrap().unwrap();
    assert_eq!(exec.num_partitions, 0);
    assert!(exec.distribute_by.is_none());
    let (exprs, n) = exec.hash_partition.as_ref().unwrap();
    assert_eq!((exprs[1].display.as_str(), *n), ("y@0", 3));
    node.distribute_by = Some(expr("k"));
    node.num_partitions = None;
    let exec = plan(Some(&node), 1).unwrap().unwrap();
    assert_eq!(exec.distribute_by.as_ref().unwrap().display, "k@0");
    assert_eq!(exec.hash_partition.as_ref().unwrap().1, 3);
    let exec = plan(Some(&logical("/tmp/p.so", 3, None)), 2).unwrap().unwrap();
    assert!(exec.hash_partition.is_none());
}

#[test]
fn nothing_is_planned_for_other_nodes() {
    assert!(plan(None, 1).unwrap().is_none());
}

#[test]
fn planning_needs_inputs() {
    let node = logical("/tmp/p.so", 3, None);
    match plan(Some(&node), 0) {
        Err(Fault::Plan(error)) => {
            assert_eq!(error.kind, ErrorKind::Plan);
            assert_eq!(error.message, "MapPartition expects single input");
        }
        other => panic!("{other:?}"),
    }
    let children = vec![input(5, Partitioning::RoundRobinBatch(2))];
    let none: Vec<&'static str> = vec![];
    match CustomPlannerExtension::default().plan_extension(Some(&node), &none, children, convert) {
        Err(Fault::Plan(error)) => {
            assert_eq!(error.message, "MapPartition expects single logical input");
        }
        other => panic!("{other:?}"),
    }
}

#[test]
fn planning_passes_errors_on() {
    let node = logical("/tmp/p.so", 3, Some(("bad", 4)));
    match plan(Some(&node), 1) {
        Err(Fault::Outside(error)) => assert_eq!(error, "cannot plan over rows"),
        other => panic!("{other:?}"),
    }
    let mut node = logical("/tmp/p.so", 3, None);
    node.hash_partition = Some((vec![expr("x"), expr("bad")], 3));
    assert!(matches!(plan(Some(&node), 1), Err(Fault::Outside(_))));
}
