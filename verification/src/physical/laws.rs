//! What a physical node claims of its rows.
use std::sync::Arc;

use arrow::datatypes::Schema;
use vstd::prelude::*;

use crate::error::PlanError;
use crate::expr::Expr;
use crate::physical::map_partition_exec::{
    compute_properties, node_spread, Distribution, ExecNode, MapPartitionExec, Partitioning,
    PlanInput, PlanProperties, Spread,
};

verus! {

/// A partitioning has `n` partitions.
pub open spec fn has_partitions<Y>(partitioning: Partitioning<Y>, n: usize) -> bool {
    match partitioning {
        Partitioning::RoundRobinBatch(m) => m == n,
        Partitioning::Hash(_, m) => m == n,
        Partitioning::UnknownPartitioning(m) => m == n,
    }
}

/// The number of partitions is the one that the partitioning was made with.
pub proof fn lemma_partition_count<Y>(partitioning: Partitioning<Y>, n: usize)
    requires
        call_ensures(Partitioning::<Y>::partition_count, (&partitioning,), n),
    ensures
        has_partitions(partitioning, n),
{
}

/// A node claims a hash partitioning exactly where it has one and its input has the number of
/// partitions asked for: that of the distribution, if there is one into more than none, or else
/// that of the hash partitioning. It claims the expressions of its hash partitioning and the
/// number of partitions of its input. Everywhere else it claims to know nothing but that
/// number.
pub proof fn lemma_claims<Y>(
    output_schema: Arc<Schema>,
    input: Partitioning<Y>,
    hash_partition: Option<(Vec<Expr<Y>>, usize)>,
    distribute_by: Option<Expr<Y>>,
    num_partitions: usize,
    properties: PlanProperties<Y>,
)
    requires
        call_ensures(
            compute_properties::<Y>,
            (output_schema, &input, &hash_partition, &distribute_by, num_partitions),
            properties,
        ),
    ensures
        match properties.partitioning {
            Partitioning::Hash(exprs, n) => {
                &&& has_partitions(input, n)
                &&& hash_partition matches Some((by, m)) && exprs@ == by@ && n == if distribute_by
                    is Some && num_partitions > 0 {
                    num_partitions
                } else {
                    m
                }
            },
            Partitioning::UnknownPartitioning(n) => {
                &&& has_partitions(input, n)
                &&& hash_partition matches Some((_, m)) ==> n != if distribute_by is Some
                    && num_partitions > 0 {
                    num_partitions
                } else {
                    m
                }
            },
            Partitioning::RoundRobinBatch(_) => false,
        },
{
}

/// A node claims a hash partitioning only where its input has the number of partitions that it
/// was asked for, and then by its own expressions; it never has more or fewer partitions than
/// its input.
pub proof fn lemma_node_claims<P, Y>(node: ExecNode<P, Y>)
    ensures
        match node_spread(node) {
            Spread::Hash(exprs, n) => {
                &&& node.hash_partition matches Some((by, m)) && by == exprs && n == if
                    node.distribute_by is Some && node.num_partitions > 0 {
                    node.num_partitions
                } else {
                    m
                }
                &&& match node.spread {
                    Spread::RoundRobin(m) => m == n,
                    Spread::Hash(_, m) => m == n,
                    Spread::Unknown(m) => m == n,
                }
            },
            Spread::Unknown(n) => {
                &&& match node.spread {
                    Spread::RoundRobin(m) => m == n,
                    Spread::Hash(_, m) => m == n,
                    Spread::Unknown(m) => m == n,
                }
                &&& node.hash_partition matches Some((_, m)) ==> n != if node.distribute_by is Some
                    && node.num_partitions > 0 {
                    node.num_partitions
                } else {
                    m
                }
            },
            Spread::RoundRobin(_) => false,
        },
{
}

/// A plan shows a node by its library, its function and the key it distributes by, if any.
pub proof fn lemma_shows_node<P, Y>(node: MapPartitionExec<P, Y>, text: String)
    requires
        call_ensures(MapPartitionExec::<P, Y>::fmt_as, (&node,), text),
    ensures
        match node.distribute_by {
            None => text@ == "MapPartitionExec: so="@ + node.so_path@ + ", fn="@ + node.fn_name@,
            Some(expr) => text@ == "MapPartitionExec: so="@ + node.so_path@ + ", fn="@
                + node.fn_name@ + ", distribute_by=["@ + expr.display@ + "]"@,
        },
{
}

/// A node over another input is the same node, over that input.
pub proof fn lemma_new_children<P, Y>(
    node: MapPartitionExec<P, Y>,
    children: Vec<PlanInput<P, Y>>,
    exec: Result<MapPartitionExec<P, Y>, PlanError>,
)
    requires
        call_ensures(MapPartitionExec::<P, Y>::with_new_children, (&node, children), exec),
    ensures
        exec is Ok <==> children@.len() > 0,
        exec matches Ok(new) ==> {
            &&& new@.so_path == node@.so_path
            &&& new@.fn_name == node@.fn_name
            &&& new@.output_schema == node@.output_schema
            &&& new@.distribute_by == node@.distribute_by
            &&& new@.num_partitions == node@.num_partitions
            &&& new@.hash_partition == node@.hash_partition
            &&& new@.plan == children@[0].plan
            &&& new@.spread == children@[0].partitioning@
            &&& new.cache.partitioning@ == node_spread(new@)
        },
{
}

/// A node asks for an input that is partitioned by the hash of its own expressions, where it has
/// a hash partitioning, and for nothing else.
pub proof fn lemma_required<P, Y>(node: MapPartitionExec<P, Y>, required: Vec<Distribution<Y>>)
    requires
        call_ensures(MapPartitionExec::<P, Y>::required_input_distribution, (&node,), required),
    ensures
        required@.len() == 1,
        node.hash_partition matches Some((exprs, _)) ==> (
        required@[0] matches Distribution::HashPartitioned(by) && by@ == exprs@),
        node.hash_partition is None ==> required@[0] is UnspecifiedDistribution,
{
}

/// A node that is made holds what it is made of, and claims what its input allows.
pub proof fn lemma_made<P, Y>(
    so_path: String,
    fn_name: String,
    output_schema: Arc<Schema>,
    input: PlanInput<P, Y>,
    distribute_by: Option<Expr<Y>>,
    num_partitions: usize,
    hash_partition: Option<(Vec<Expr<Y>>, usize)>,
    node: MapPartitionExec<P, Y>,
)
    requires
        call_ensures(
            MapPartitionExec::<P, Y>::new,
            (so_path, fn_name, output_schema, input, distribute_by, num_partitions, hash_partition),
            node,
        ),
    ensures
        node@.so_path == so_path@,
        node@.fn_name == fn_name@,
        node@.output_schema == output_schema,
        node@.plan == input.plan,
        node@.spread == input.partitioning@,
        node@.distribute_by == distribute_by,
        node@.num_partitions == num_partitions,
        hash_partition is None ==> node@.hash_partition is None,
        hash_partition matches Some((exprs, n)) ==> node@.hash_partition == Some((exprs@, n)),
        node.cache.schema == output_schema,
        node.cache.partitioning@ == node_spread(node@),
        node.cache.emission is Incremental,
        node.cache.boundedness is Bounded,
{
}

} // verus!
