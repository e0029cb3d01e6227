//! The node that runs a processor library over each partition of its input.
use std::sync::Arc;

use arrow::datatypes::Schema;
use vstd::prelude::*;

use crate::error::{internal_error, ErrorKind, PlanError};
use crate::expr::{dup_all, dup_hash, dup_opt, hash_view, Expr};
use crate::schema::{schema_message, too_large, write_schema, StreamError};
use crate::text::text_of;

verus! {

/// What is said of a schema whose message is too large.
pub open spec fn schema_too_large() -> (ErrorKind, Seq<char>) {
    internal_error("failed to create schema IPC writer: "@, too_large())
}

/// Encodes a schema to the bytes that processors and plan messages carry.
pub fn encode_schema_to_ipc(schema: &Schema) -> (bytes: Result<Vec<u8>, PlanError>)
    ensures
        match bytes {
            Ok(b) => schema_message(*schema) == Some(b@),
            Err(e) => schema_message(*schema) is None && e@ == schema_too_large(),
        },
{
    match write_schema(schema) {
        Ok(bytes) => Ok(bytes),
        Err(StreamError::Create(e)) => Err(
            PlanError::internal("failed to create schema IPC writer: ", e.as_str()),
        ),
        Err(StreamError::Finish(e)) => Err(
            PlanError::internal("failed to finish schema IPC writer: ", e.as_str()),
        ),
    }
}

/// How the rows of a plan are spread over its partitions.
#[derive(Debug)]
pub enum Partitioning<Y> {
    /// Batch by batch, in turn.
    RoundRobinBatch(usize),
    /// By the hash of the expressions.
    Hash(Vec<Expr<Y>>, usize),
    /// In no known way.
    UnknownPartitioning(usize),
}

/// A partitioning as its expressions and its number of partitions.
pub enum Spread<Y> {
    RoundRobin(usize),
    Hash(Seq<Expr<Y>>, usize),
    Unknown(usize),
}

impl<Y> View for Partitioning<Y> {
    type V = Spread<Y>;

    open spec fn view(&self) -> Spread<Y> {
        match *self {
            Partitioning::RoundRobinBatch(n) => Spread::RoundRobin(n),
            Partitioning::Hash(exprs, n) => Spread::Hash(exprs@, n),
            Partitioning::UnknownPartitioning(n) => Spread::Unknown(n),
        }
    }
}

/// The number of partitions.
pub open spec fn spread_count<Y>(spread: Spread<Y>) -> usize {
    match spread {
        Spread::RoundRobin(n) => n,
        Spread::Hash(_, n) => n,
        Spread::Unknown(n) => n,
    }
}

impl<Y> Partitioning<Y> {
    /// The number of partitions.
    pub fn partition_count(&self) -> (n: usize)
        ensures
            n == spread_count(self@),
    {
        match self {
            Partitioning::RoundRobinBatch(n) => *n,
            Partitioning::Hash(_, n) => *n,
            Partitioning::UnknownPartitioning(n) => *n,
        }
    }
}

/// When a node hands out its rows.
#[derive(Debug, Clone, Copy, PartialEq, Eq, Structural)]
pub enum EmissionType {
    Incremental,
    Final,
    Both,
}

/// Whether the input of a node ends.
#[derive(Debug, Clone, Copy, PartialEq, Eq, Structural)]
pub enum Boundedness {
    Bounded,
    Unbounded,
}

/// What the planner knows of a node.
#[derive(Debug)]
pub struct PlanProperties<Y> {
    pub schema: Arc<Schema>,
    pub partitioning: Partitioning<Y>,
    pub emission: EmissionType,
    pub boundedness: Boundedness,
}

/// The partitioning of the node: partitions are mapped one to one, so their number is
/// that of the input, and the hash partitioning carries over where its number of
/// partitions is the one asked for.
pub open spec fn output_spread<Y>(
    input: Spread<Y>,
    hash_partition: Option<(Seq<Expr<Y>>, usize)>,
    distribute_by: Option<Expr<Y>>,
    num_partitions: usize,
) -> Spread<Y> {
    let n = spread_count(input);
    match hash_partition {
        Some((exprs, m)) => {
            let asked = if distribute_by is Some && num_partitions > 0 {
                num_partitions
            } else {
                m
            };
            if n == asked {
                Spread::Hash(exprs, n)
            } else {
                Spread::Unknown(n)
            }
        },
        None => Spread::Unknown(n),
    }
}

/// A node has as many partitions as its input.
pub proof fn lemma_one_to_one<Y>(
    input: Spread<Y>,
    hash_partition: Option<(Seq<Expr<Y>>, usize)>,
    distribute_by: Option<Expr<Y>>,
    num_partitions: usize,
)
    ensures
        spread_count(output_spread(input, hash_partition, distribute_by, num_partitions))
            == spread_count(input),
{
}

/// The properties of a node over `input`.
pub fn compute_properties<Y>(
    output_schema: Arc<Schema>,
    input: &Partitioning<Y>,
    hash_partition: &Option<(Vec<Expr<Y>>, usize)>,
    distribute_by: &Option<Expr<Y>>,
    num_partitions: usize,
) -> (properties: PlanProperties<Y>)
    ensures
        properties.schema == output_schema,
        properties.partitioning@ == output_spread(
            input@,
            hash_view(*hash_partition),
            *distribute_by,
            num_partitions,
        ),
        properties.emission == EmissionType::Incremental,
        properties.boundedness == Boundedness::Bounded,
{
    let count: usize = input.partition_count();
    let partitioning = if distribute_by.is_some() && num_partitions > 0 {
        if count == num_partitions {
            if let Some((exprs, _)) = hash_partition {
                Partitioning::Hash(dup_all(exprs), num_partitions)
            } else {
                Partitioning::UnknownPartitioning(num_partitions)
            }
        } else {
            Partitioning::UnknownPartitioning(count)
        }
    } else {
        match hash_partition {
            Some((exprs, n)) => if count == *n {
                Partitioning::Hash(dup_all(exprs), *n)
            } else {
                Partitioning::UnknownPartitioning(count)
            },
            None => Partitioning::UnknownPartitioning(count),
        }
    };
    PlanProperties {
        schema: output_schema,
        partitioning,
        emission: EmissionType::Incremental,
        boundedness: Boundedness::Bounded,
    }
}

/// An input plan, with the partitioning of its output.
#[derive(Debug)]
pub struct PlanInput<P, Y> {
    pub plan: P,
    pub partitioning: Partitioning<Y>,
}

/// What a node asks of the distribution of its input.
#[derive(Debug)]
pub enum Distribution<Y> {
    UnspecifiedDistribution,
    HashPartitioned(Vec<Expr<Y>>),
}

/// The physical node.
#[derive(Debug)]
pub struct MapPartitionExec<P, Y> {
    pub so_path: String,
    pub fn_name: String,
    pub output_schema: Arc<Schema>,
    pub input: PlanInput<P, Y>,
    /// Rows with the same value of this go to the same processor.
    pub distribute_by: Option<Expr<Y>>,
    /// The number of partitions asked for with it.
    pub num_partitions: usize,
    /// The hash partitioning that the input has to have.
    pub hash_partition: Option<(Vec<Expr<Y>>, usize)>,
    /// The properties, computed once.
    pub cache: PlanProperties<Y>,
}

/// What a physical node is.
pub struct ExecNode<P, Y> {
    pub so_path: Seq<char>,
    pub fn_name: Seq<char>,
    pub output_schema: Arc<Schema>,
    pub plan: P,
    pub spread: Spread<Y>,
    pub distribute_by: Option<Expr<Y>>,
    pub num_partitions: usize,
    pub hash_partition: Option<(Seq<Expr<Y>>, usize)>,
}

impl<P, Y> View for MapPartitionExec<P, Y> {
    type V = ExecNode<P, Y>;

    open spec fn view(&self) -> ExecNode<P, Y> {
        ExecNode {
            so_path: self.so_path@,
            fn_name: self.fn_name@,
            output_schema: self.output_schema,
            plan: self.input.plan,
            spread: self.input.partitioning@,
            distribute_by: self.distribute_by,
            num_partitions: self.num_partitions,
            hash_partition: hash_view(self.hash_partition),
        }
    }
}

/// The partitioning of `node`.
pub open spec fn node_spread<P, Y>(node: ExecNode<P, Y>) -> Spread<Y> {
    output_spread(node.spread, node.hash_partition, node.distribute_by, node.num_partitions)
}

/// How plans show a node of the given name.
pub open spec fn node_text(
    head: Seq<char>,
    so_path: Seq<char>,
    fn_name: Seq<char>,
    distribute_by: Option<Seq<char>>,
) -> Seq<char> {
    let text = head + so_path + ", fn="@ + fn_name;
    match distribute_by {
        Some(expr) => text + ", distribute_by=["@ + expr + "]"@,
        None => text,
    }
}

/// The text by which readers know an expression, if any.
pub open spec fn shown<X>(expr: Option<Expr<X>>) -> Option<Seq<char>> {
    match expr {
        Some(expr) => Some(expr.display@),
        None => None,
    }
}

/// Writes what plans show of a node.
pub(crate) fn show_node<X>(
    head: &str,
    so_path: &str,
    fn_name: &str,
    distribute_by: &Option<Expr<X>>,
) -> (text: String)
    ensures
        text@ == node_text(head@, so_path@, fn_name@, shown(*distribute_by)),
{
    let mut text = text_of(head, so_path);
    text.append(", fn=");
    text.append(fn_name);
    if let Some(expr) = distribute_by {
        text.append(", distribute_by=[");
        text.append(expr.display.as_str());
        text.append("]");
    }
    text
}

impl<P, Y> MapPartitionExec<P, Y> {
    /// The properties stand for the fields.
    pub open spec fn wf(&self) -> bool {
        &&& self.cache.schema == self.output_schema
        &&& self.cache.partitioning@ == node_spread(self@)
        &&& self.cache.emission == EmissionType::Incremental
        &&& self.cache.boundedness == Boundedness::Bounded
    }

    /// A node over `input`.
    pub fn new(
        so_path: String,
        fn_name: String,
        output_schema: Arc<Schema>,
        input: PlanInput<P, Y>,
        distribute_by: Option<Expr<Y>>,
        num_partitions: usize,
        hash_partition: Option<(Vec<Expr<Y>>, usize)>,
    ) -> (exec: MapPartitionExec<P, Y>)
        ensures
            exec.wf(),
            exec@ == (ExecNode {
                so_path: so_path@,
                fn_name: fn_name@,
                output_schema,
                plan: input.plan,
                spread: input.partitioning@,
                distribute_by,
                num_partitions,
                hash_partition: hash_view(hash_partition),
            }),
    {
        let cache = compute_properties(
            output_schema.clone(),
            &input.partitioning,
            &hash_partition,
            &distribute_by,
            num_partitions,
        );
        MapPartitionExec {
            so_path,
            fn_name,
            output_schema,
            input,
            distribute_by,
            num_partitions,
            hash_partition,
            cache,
        }
    }

    /// The name of the node.
    pub fn name(&self) -> (name: &str)
        ensures
            name@ == "MapPartitionExec"@,
    {
        "MapPartitionExec"
    }

    /// What the planner knows of the node.
    pub fn properties(&self) -> (properties: &PlanProperties<Y>)
        requires
            self.wf(),
        ensures
            properties.schema == self.output_schema,
            properties.partitioning@ == node_spread(self@),
            properties.emission == EmissionType::Incremental,
            properties.boundedness == Boundedness::Bounded,
    {
        &self.cache
    }

    /// The inputs of the node: the one.
    pub fn children(&self) -> (children: Vec<&PlanInput<P, Y>>)
        ensures
            children@ == seq![&self.input],
    {
        let mut children: Vec<&PlanInput<P, Y>> = Vec::new();
        children.push(&self.input);
        children
    }

    /// The distribution that each input has to have: partitioned by hash where the node
    /// has a hash partitioning.
    pub fn required_input_distribution(&self) -> (required: Vec<Distribution<Y>>)
        ensures
            required@.len() == 1,
            match self@.hash_partition {
                Some((exprs, _)) => required@[0] matches Distribution::HashPartitioned(by) && by@
                    == exprs,
                None => required@[0] is UnspecifiedDistribution,
            },
    {
        let distribution = match &self.hash_partition {
            Some((exprs, _)) => Distribution::HashPartitioned(dup_all(exprs)),
            None => Distribution::UnspecifiedDistribution,
        };
        let mut required: Vec<Distribution<Y>> = Vec::new();
        required.push(distribution);
        required
    }

    /// The same node over the first of `children`; without one, an error.
    pub fn with_new_children(&self, children: Vec<PlanInput<P, Y>>) -> (exec: Result<
        MapPartitionExec<P, Y>,
        PlanError,
    >)
        ensures
            children@.len() > 0 ==> (exec matches Ok(new) && new.wf() && new@ == (ExecNode {
                plan: children@[0].plan,
                spread: children@[0].partitioning@,
                ..self@
            })),
            children@.len() == 0 ==> (exec matches Err(e) && e@ == (
                ErrorKind::Internal,
                "MapPartitionExec expects single input"@,
            )),
    {
        let mut children = children;
        if children.len() == 0 {
            return Err(
                PlanError::new(ErrorKind::Internal, "MapPartitionExec expects single input"),
            );
        }
        let input = children.remove(0);
        Ok(
            MapPartitionExec::new(
                self.so_path.clone(),
                self.fn_name.clone(),
                self.output_schema.clone(),
                input,
                dup_opt(&self.distribute_by),
                self.num_partitions,
                dup_hash(&self.hash_partition),
            ),
        )
    }

    /// How plans show the node.
    pub fn fmt_as(&self) -> (text: String)
        ensures
            text@ == node_text(
                "MapPartitionExec: so="@,
                self@.so_path,
                self@.fn_name,
                shown(self@.distribute_by),
            ),
    {
        show_node(
            "MapPartitionExec: so=",
            self.so_path.as_str(),
            self.fn_name.as_str(),
            &self.distribute_by,
        )
    }
}

} // verus!
