//! The rule on a whole plan, which the engine walks from its leaves up.
use vstd::prelude::*;

use crate::physical::map_partition_exec::{
    node_spread, ExecNode, MapPartitionExec, Partitioning, PlanInput, Spread,
};
use crate::physical_optimizer::enforce_distribute_by::{
    asked_spread, has_hash, lemma_enforced_once, needs_repartition, over, EnforceDistributeBy,
};

verus! {

/// A physical plan, with nodes `N` besides those of this library.
pub enum PlanTree<N, Y> {
    /// A node that runs a processor library over its input, which says how its rows are spread.
    MapPartition(ExecNode<(), Y>, Box<PlanTree<N, Y>>),
    /// A repartitioning of its input.
    Repartition(Spread<Y>, Box<PlanTree<N, Y>>),
    /// Another node, over its inputs.
    Other(N, Seq<PlanTree<N, Y>>),
}

/// How the rows of a plan are spread; `other` says so of another node over inputs that are
/// spread in given ways.
pub open spec fn plan_spread<N, Y>(
    plan: PlanTree<N, Y>,
    other: spec_fn(N, Seq<Spread<Y>>) -> Spread<Y>,
) -> Spread<Y>
    decreases plan,
{
    match plan {
        PlanTree::MapPartition(exec, input) => node_spread(over(exec, (), plan_spread(*input, other))),
        PlanTree::Repartition(spread, _) => spread,
        PlanTree::Other(node, inputs) => other(
            node,
            Seq::new(
                inputs.len(),
                |i: int|
                    if 0 <= i < inputs.len() {
                        plan_spread(inputs[i], other)
                    } else {
                        arbitrary()
                    },
            ),
        ),
    }
}

/// The input that the rule gives a node over `input`.
pub open spec fn enforced_input<N, Y>(
    exec: ExecNode<(), Y>,
    input: PlanTree<N, Y>,
    other: spec_fn(N, Seq<Spread<Y>>) -> Spread<Y>,
) -> PlanTree<N, Y> {
    if needs_repartition(over(exec, (), plan_spread(input, other))) {
        PlanTree::Repartition(asked_spread(exec), Box::new(input))
    } else {
        input
    }
}

/// The plan after the rule was applied to all its nodes, from the leaves up.
pub open spec fn enforced<N, Y>(
    plan: PlanTree<N, Y>,
    other: spec_fn(N, Seq<Spread<Y>>) -> Spread<Y>,
) -> PlanTree<N, Y>
    decreases plan,
{
    match plan {
        PlanTree::MapPartition(exec, input) => PlanTree::MapPartition(
            exec,
            Box::new(enforced_input(exec, enforced(*input, other), other)),
        ),
        PlanTree::Repartition(spread, input) => PlanTree::Repartition(
            spread,
            Box::new(enforced(*input, other)),
        ),
        PlanTree::Other(node, inputs) => PlanTree::Other(
            node,
            Seq::new(
                inputs.len(),
                |i: int|
                    if 0 <= i < inputs.len() {
                        enforced(inputs[i], other)
                    } else {
                        arbitrary()
                    },
            ),
        ),
    }
}

/// No node of the plan needs its input repartitioned.
pub open spec fn is_enforced<N, Y>(
    plan: PlanTree<N, Y>,
    other: spec_fn(N, Seq<Spread<Y>>) -> Spread<Y>,
) -> bool
    decreases plan,
{
    match plan {
        PlanTree::MapPartition(exec, input) => {
            &&& !needs_repartition(over(exec, (), plan_spread(*input, other)))
            &&& is_enforced(*input, other)
        },
        PlanTree::Repartition(_, input) => is_enforced(*input, other),
        PlanTree::Other(_, inputs) => forall|i: int|
            0 <= i < inputs.len() ==> is_enforced(#[trigger] inputs[i], other),
    }
}

/// Every node of the plan that distributes by key has the hash partitioning that goes with
/// it.
pub open spec fn all_have_hash<N, Y>(plan: PlanTree<N, Y>) -> bool
    decreases plan,
{
    match plan {
        PlanTree::MapPartition(exec, input) => has_hash(exec) && all_have_hash(*input),
        PlanTree::Repartition(_, input) => all_have_hash(*input),
        PlanTree::Other(_, inputs) => forall|i: int|
            0 <= i < inputs.len() ==> all_have_hash(#[trigger] inputs[i]),
    }
}

/// `after` is `before`, but for repartitionings into what they ask for below nodes that
/// distribute by key.
pub open spec fn only_repartitioned<N, Y>(before: PlanTree<N, Y>, after: PlanTree<N, Y>) -> bool
    decreases before,
{
    match (before, after) {
        (PlanTree::MapPartition(exec, input), PlanTree::MapPartition(same, below)) => {
            &&& same == exec
            &&& only_repartitioned(*input, *below) || (exec.distribute_by is Some
                && match *below {
                PlanTree::Repartition(spread, kept) => spread == asked_spread(exec)
                    && only_repartitioned(*input, *kept),
                _ => false,
            })
        },
        (PlanTree::Repartition(spread, input), PlanTree::Repartition(same, below)) => same == spread
            && only_repartitioned(*input, *below),
        (PlanTree::Other(node, inputs), PlanTree::Other(same, below)) => {
            &&& same == node
            &&& below.len() == inputs.len()
            &&& forall|i: int|
                0 <= i < inputs.len() ==> only_repartitioned(#[trigger] inputs[i], below[i])
        },
        _ => false,
    }
}

/// After the rule was applied to a plan, no node of it needs its input repartitioned.
pub proof fn lemma_all_enforced<N, Y>(
    plan: PlanTree<N, Y>,
    other: spec_fn(N, Seq<Spread<Y>>) -> Spread<Y>,
)
    requires
        all_have_hash(plan),
    ensures
        is_enforced(enforced(plan, other), other),
    decreases plan,
{
    match plan {
        PlanTree::MapPartition(exec, input) => {
            lemma_all_enforced(*input, other);
            let below = enforced_input(exec, enforced(*input, other), other);
            if exec.distribute_by is Some {
                lemma_enforced_once(exec, ());
            }
            assert(is_enforced(below, other));
            assert(!needs_repartition(over(exec, (), plan_spread(below, other))));
        },
        PlanTree::Repartition(_, input) => {
            lemma_all_enforced(*input, other);
        },
        PlanTree::Other(_, inputs) => {
            assert forall|i: int| 0 <= i < inputs.len() implies is_enforced(
                enforced(#[trigger] inputs[i], other),
                other,
            ) by {
                lemma_all_enforced(inputs[i], other);
            }
        },
    }
}

/// The rule changes nothing in a plan in which no node needs its input repartitioned.
pub proof fn lemma_enforced_plan_stays<N, Y>(
    plan: PlanTree<N, Y>,
    other: spec_fn(N, Seq<Spread<Y>>) -> Spread<Y>,
)
    requires
        is_enforced(plan, other),
    ensures
        enforced(plan, other) == plan,
    decreases plan,
{
    match plan {
        PlanTree::MapPartition(exec, input) => {
            lemma_enforced_plan_stays(*input, other);
        },
        PlanTree::Repartition(_, input) => {
            lemma_enforced_plan_stays(*input, other);
        },
        PlanTree::Other(node, inputs) => {
            assert forall|i: int| 0 <= i < inputs.len() implies enforced(
                #[trigger] inputs[i],
                other,
            ) == inputs[i] by {
                lemma_enforced_plan_stays(inputs[i], other);
            }
            assert(enforced(plan, other)->Other_1 =~= inputs);
        },
    }
}

/// Applied to a plan a second time, the rule changes nothing.
pub proof fn lemma_enforced_twice<N, Y>(
    plan: PlanTree<N, Y>,
    other: spec_fn(N, Seq<Spread<Y>>) -> Spread<Y>,
)
    requires
        all_have_hash(plan),
    ensures
        enforced(enforced(plan, other), other) == enforced(plan, other),
{
    lemma_all_enforced(plan, other);
    lemma_enforced_plan_stays(enforced(plan, other), other);
}

/// The rule does nothing to a plan but put repartitionings below nodes that distribute by
/// key.
pub proof fn lemma_only_repartitioned<N, Y>(
    plan: PlanTree<N, Y>,
    other: spec_fn(N, Seq<Spread<Y>>) -> Spread<Y>,
)
    ensures
        only_repartitioned(plan, enforced(plan, other)),
    decreases plan,
{
    match plan {
        PlanTree::MapPartition(exec, input) => {
            lemma_only_repartitioned(*input, other);
        },
        PlanTree::Repartition(_, input) => {
            lemma_only_repartitioned(*input, other);
        },
        PlanTree::Other(_, inputs) => {
            let after = enforced(plan, other)->Other_1;
            assert forall|i: int| 0 <= i < inputs.len() implies only_repartitioned(
                #[trigger] inputs[i],
                after[i],
            ) by {
                lemma_only_repartitioned(inputs[i], other);
            }
        },
    }
}

/// `repartition` puts a repartitioning above a plan.
pub open spec fn repartitions<
    N,
    Y,
    E,
    F: Fn(PlanInput<PlanTree<N, Y>, Y>, Partitioning<Y>) -> Result<PlanInput<PlanTree<N, Y>, Y>, E>,
>(repartition: F) -> bool {
    forall|
        input: PlanInput<PlanTree<N, Y>, Y>,
        partitioning: Partitioning<Y>,
        above: Result<PlanInput<PlanTree<N, Y>, Y>, E>,
    | #[trigger]
        call_ensures(repartition, (input, partitioning), above) ==> (above matches Ok(a) ==> a.plan
            == PlanTree::<N, Y>::Repartition(partitioning@, Box::new(input.plan))
            && a.partitioning@ == partitioning@)
}

/// What [`EnforceDistributeBy::optimize`] gives for a node of a plan is the node that the
/// rule gives, over the input that the rule gives.
pub proof fn lemma_optimize_enforces<
    N,
    Y,
    E,
    F: Fn(PlanInput<PlanTree<N, Y>, Y>, Partitioning<Y>) -> Result<PlanInput<PlanTree<N, Y>, Y>, E>,
>(
    rule: EnforceDistributeBy,
    exec: MapPartitionExec<PlanTree<N, Y>, Y>,
    repartition: F,
    other: spec_fn(N, Seq<Spread<Y>>) -> Spread<Y>,
    optimized: Result<(MapPartitionExec<PlanTree<N, Y>, Y>, bool), E>,
)
    requires
        repartitions::<N, Y, E, F>(repartition),
        exec@.spread == plan_spread(exec@.plan, other),
        call_ensures(EnforceDistributeBy::optimize, (&rule, exec, repartition), optimized),
    ensures
        optimized matches Ok((new, _)) ==> {
            let input = enforced_input(over(exec@, (), exec@.spread), exec@.plan, other);
            new@ == over(exec@, input, plan_spread(input, other))
        },
{
}

} // verus!
