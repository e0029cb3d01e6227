//! The rule that a node that distributes by key gets its input hash partitioned by it.
use vstd::prelude::*;

use crate::expr::{dup_all, Expr};
use crate::physical::map_partition_exec::{
    node_spread, ExecNode, MapPartitionExec, Partitioning, PlanInput, Spread,
};

verus! {

/// Forces a repartitioning below every node that distributes by key and whose input is
/// not partitioned that way already, however few its rows or partitions.
#[derive(Debug)]
pub struct EnforceDistributeBy;

/// The two lists hold expressions of the same debugging texts.
pub open spec fn same_texts<Y>(a: Seq<Expr<Y>>, b: Seq<Expr<Y>>) -> bool {
    &&& a.len() == b.len()
    &&& forall|i: int| 0 <= i < a.len() ==> (#[trigger] a[i]).debug@ == b[i].debug@
}

/// `spread` is the partitioning that `node` asks for: by the hash of the same
/// expressions, into the same number of partitions.
pub open spec fn satisfies<P, Y>(spread: Spread<Y>, node: ExecNode<P, Y>) -> bool {
    match (spread, node.hash_partition) {
        (Spread::Hash(exprs, n), Some((required, _))) => n == node.num_partitions && same_texts(
            exprs,
            required,
        ),
        _ => false,
    }
}

/// The input of `node` has to be repartitioned.
pub open spec fn needs_repartition<P, Y>(node: ExecNode<P, Y>) -> bool {
    node.distribute_by is Some && !satisfies(node.spread, node)
}

/// A node that distributes by key has the hash partitioning that goes with it.
pub open spec fn has_hash<P, Y>(node: ExecNode<P, Y>) -> bool {
    node.distribute_by is Some ==> node.hash_partition is Some
}

/// The partitioning that `node` asks for.
pub open spec fn asked_spread<P, Y>(node: ExecNode<P, Y>) -> Spread<Y> {
    match node.hash_partition {
        Some((exprs, _)) => Spread::Hash(exprs, node.num_partitions),
        None => Spread::Unknown(node.num_partitions),
    }
}

/// `node` over another input.
pub open spec fn over<P, Q, Y>(node: ExecNode<P, Y>, plan: Q, spread: Spread<Y>) -> ExecNode<Q, Y> {
    ExecNode {
        so_path: node.so_path,
        fn_name: node.fn_name,
        output_schema: node.output_schema,
        plan,
        spread,
        distribute_by: node.distribute_by,
        num_partitions: node.num_partitions,
        hash_partition: node.hash_partition,
    }
}

/// Over an input with the partitioning it asks for, a node needs no repartitioning, so
/// the rule changes nothing a second time; and the node keeps that partitioning.
pub proof fn lemma_enforced_once<P, Y>(node: ExecNode<P, Y>, plan: P)
    requires
        node.distribute_by is Some,
        has_hash(node),
    ensures
        !needs_repartition(over(node, plan, asked_spread(node))),
        node.num_partitions > 0 ==> node_spread(over(node, plan, asked_spread(node)))
            == asked_spread(node),
{
}

/// Whether the two lists hold expressions of the same debugging texts.
fn equal_texts<Y>(a: &Vec<Expr<Y>>, b: &Vec<Expr<Y>>) -> (same: bool)
    ensures
        same == same_texts(a@, b@),
{
    if a.len() != b.len() {
        return false;
    }
    let mut i: usize = 0;
    while i < a.len()
        invariant
            i <= a@.len(),
            a@.len() == b@.len(),
            forall|j: int| 0 <= j < i ==> (#[trigger] a@[j]).debug@ == b@[j].debug@,
        decreases a@.len() - i,
    {
        if a[i].debug != b[i].debug {
            assert(a@[i as int].debug@ != b@[i as int].debug@);
            return false;
        }
        i = i + 1;
    }
    true
}

/// Whether `child` has the partitioning that `exec` asks for.
pub fn is_satisfied<P, Y>(child: &Partitioning<Y>, exec: &MapPartitionExec<P, Y>) -> (satisfied:
    bool)
    requires
        exec@.hash_partition is Some,
    ensures
        satisfied == satisfies(child@, exec@),
{
    match (child, &exec.hash_partition) {
        (Partitioning::Hash(exprs, n), Some((required, _))) => {
            *n == exec.num_partitions && equal_texts(exprs, required)
        },
        _ => false,
    }
}

impl EnforceDistributeBy {
    /// The name of the rule.
    pub fn name(&self) -> (name: &str)
        ensures
            name@ == "enforce_distribute_by"@,
    {
        "enforce_distribute_by"
    }

    /// Whether the rule keeps the schema of the plan.
    pub fn schema_check(&self) -> (keeps: bool)
        ensures
            keeps,
    {
        true
    }

    /// Applies the rule to one node: the node and whether it was changed. `repartition`
    /// puts a repartitioning above an input.
    pub fn optimize<P, Y, E, F: Fn(PlanInput<P, Y>, Partitioning<Y>) -> Result<PlanInput<P, Y>, E>>(
        &self,
        exec: MapPartitionExec<P, Y>,
        repartition: F,
    ) -> (optimized: Result<(MapPartitionExec<P, Y>, bool), E>)
        requires
            exec.wf(),
            has_hash(exec@),
            forall|partitioning: Partitioning<Y>|
                call_requires(repartition, (exec.input, partitioning)),
        ensures
            !needs_repartition(exec@) ==> (optimized matches Ok((new, changed)) && new == exec
                && !changed),
            needs_repartition(exec@) ==> exists|
                partitioning: Partitioning<Y>,
                input: Result<PlanInput<P, Y>, E>,
            |
                {
                    &&& #[trigger] call_ensures(repartition, (exec.input, partitioning), input)
                    &&& partitioning@ == asked_spread(exec@)
                    &&& match input {
                        Ok(input) => optimized matches Ok((new, changed)) && changed && new.wf()
                            && new@ == over(exec@, input.plan, input.partitioning@),
                        Err(error) => optimized == Err::<(MapPartitionExec<P, Y>, bool), E>(error),
                    }
                },
    {
        match &exec.hash_partition {
            Some((exprs, _)) => {
                if exec.distribute_by.is_none() || is_satisfied(&exec.input.partitioning, &exec) {
                    return Ok((exec, false));
                }
                let partitioning = Partitioning::Hash(dup_all(exprs), exec.num_partitions);
                match repartition(exec.input, partitioning) {
                    Ok(input) => Ok(
                        (
                            MapPartitionExec::new(
                                exec.so_path,
                                exec.fn_name,
                                exec.output_schema,
                                input,
                                exec.distribute_by,
                                exec.num_partitions,
                                exec.hash_partition,
                            ),
                            true,
                        ),
                    ),
                    Err(error) => Err(error),
                }
            },
            None => Ok((exec, false)),
        }
    }
}

/// The rows are partitioned by the hash of expressions of the given debugging texts, into `n`
/// partitions: rows that agree on the expressions are in the same partition.
pub open spec fn hashed_by<Y>(spread: Spread<Y>, texts: Seq<Expr<Y>>, n: usize) -> bool {
    spread matches Spread::Hash(exprs, m) && m == n && exprs.len() == texts.len() && forall|i: int|
        0 <= i < exprs.len() ==> (#[trigger] exprs[i]).debug@ == texts[i].debug@
}

/// A node that distributes by key needs no repartitioning exactly where its input is hash
/// partitioned by its expressions into its number of partitions, so that rows with equal keys
/// are in the same partition; a node that does not distribute by key needs none.
pub proof fn lemma_needs_repartition<P, Y>(node: ExecNode<P, Y>)
    ensures
        node.distribute_by is None ==> !needs_repartition(node),
        node.distribute_by is Some ==> (!needs_repartition(node) <==> (
        node.hash_partition matches Some((exprs, _)) && hashed_by(
            node.spread,
            exprs,
            node.num_partitions,
        ))),
{
}

/// A node over another input differs from it in the input alone.
pub proof fn lemma_over<P, Q, Y>(node: ExecNode<P, Y>, plan: Q, spread: Spread<Y>)
    ensures
        over(node, plan, spread).so_path == node.so_path,
        over(node, plan, spread).fn_name == node.fn_name,
        over(node, plan, spread).output_schema == node.output_schema,
        over(node, plan, spread).distribute_by == node.distribute_by,
        over(node, plan, spread).num_partitions == node.num_partitions,
        over(node, plan, spread).hash_partition == node.hash_partition,
        over(node, plan, spread).plan == plan,
        over(node, plan, spread).spread == spread,
{
}

/// An input satisfies a node exactly where it is hash partitioned by the expressions of the
/// node into its number of partitions.
pub proof fn lemma_satisfied<P, Y>(
    child: Partitioning<Y>,
    exec: MapPartitionExec<P, Y>,
    satisfied: bool,
)
    requires
        call_ensures(is_satisfied::<P, Y>, (&child, &exec), satisfied),
    ensures
        satisfied <==> match (child, exec.hash_partition) {
            (Partitioning::Hash(exprs, n), Some((by, _))) => {
                &&& n == exec.num_partitions
                &&& exprs@.len() == by@.len()
                &&& forall|i: int|
                    0 <= i < by@.len() ==> (#[trigger] exprs@[i]).debug@ == by@[i].debug@
            },
            _ => false,
        },
{
    if let (Partitioning::Hash(exprs, n), Some((by, _))) = (child, exec.hash_partition) {
        assert(same_texts(exprs@, by@) <==> exprs@.len() == by@.len() && forall|i: int|
            0 <= i < by@.len() ==> (#[trigger] exprs@[i]).debug@ == by@[i].debug@);
    }
}

/// What the rule gives for a node: the node as it is, over an input that keeps rows with equal
/// keys together where the node distributes by key; or the node over its input repartitioned by
/// the hash of its expressions into its number of partitions, and then only where the input was
/// not partitioned that way.
pub proof fn lemma_optimized<
    P,
    Y,
    E,
    F: Fn(PlanInput<P, Y>, Partitioning<Y>) -> Result<PlanInput<P, Y>, E>,
>(
    rule: EnforceDistributeBy,
    exec: MapPartitionExec<P, Y>,
    repartition: F,
    optimized: Result<(MapPartitionExec<P, Y>, bool), E>,
)
    requires
        has_hash(exec@),
        call_ensures(EnforceDistributeBy::optimize, (&rule, exec, repartition), optimized),
    ensures
        optimized matches Ok((new, changed)) ==> (!changed ==> new == exec && (
        exec@.distribute_by is Some ==> hashed_by(
            exec@.spread,
            (exec@.hash_partition->0).0,
            exec@.num_partitions,
        ))),
        optimized matches Ok((new, changed)) ==> (changed ==> {
            &&& exec@.distribute_by is Some
            &&& !hashed_by(exec@.spread, (exec@.hash_partition->0).0, exec@.num_partitions)
            &&& exists|by: Vec<Expr<Y>>, input: PlanInput<P, Y>|
                {
                    &&& by@ == (exec@.hash_partition->0).0
                    &&& #[trigger] call_ensures(
                        repartition,
                        (exec.input, Partitioning::Hash(by, exec.num_partitions)),
                        Ok::<PlanInput<P, Y>, E>(input),
                    )
                    &&& new@ == over(exec@, input.plan, input.partitioning@)
                }
        }),
        optimized matches Err(error) ==> exec@.distribute_by is Some && exists|by: Vec<Expr<Y>>|
            by@ == (exec@.hash_partition->0).0 && #[trigger] call_ensures(
                repartition,
                (exec.input, Partitioning::Hash(by, exec.num_partitions)),
                Err::<PlanInput<P, Y>, E>(error),
            ),
{
    lemma_needs_repartition(exec@);
    if needs_repartition(exec@) {
        let (partitioning, input) = choose|
            partitioning: Partitioning<Y>,
            input: Result<PlanInput<P, Y>, E>,
        |
            {
                &&& #[trigger] call_ensures(repartition, (exec.input, partitioning), input)
                &&& partitioning@ == asked_spread(exec@)
                &&& match input {
                    Ok(input) => optimized matches Ok((new, changed)) && changed && new.wf() && new@
                        == over(exec@, input.plan, input.partitioning@),
                    Err(error) => optimized == Err::<(MapPartitionExec<P, Y>, bool), E>(error),
                }
            };
        if let Partitioning::Hash(by, n) = partitioning {
            assert(partitioning == Partitioning::Hash(by, exec.num_partitions));
            assert(by@ == (exec@.hash_partition->0).0);
            match input {
                Ok(input) => {
                    assert(call_ensures(
                        repartition,
                        (exec.input, Partitioning::Hash(by, exec.num_partitions)),
                        Ok::<PlanInput<P, Y>, E>(input),
                    ));
                },
                Err(error) => {
                    assert(call_ensures(
                        repartition,
                        (exec.input, Partitioning::Hash(by, exec.num_partitions)),
                        Err::<PlanInput<P, Y>, E>(error),
                    ));
                    assert(optimized->Err_0 == error);
                },
            }
        }
    }
}

/// Only a node that distributes by key without a hash partitioning is left out of the rule.
pub proof fn lemma_has_hash<P, Y>(node: ExecNode<P, Y>)
    ensures
        has_hash(node) <==> node.distribute_by is None || node.hash_partition is Some,
{
}

} // verus!
