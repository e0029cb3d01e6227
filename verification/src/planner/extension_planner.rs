//! Planning the physical node of a logical one.
use vstd::prelude::*;

use crate::dataframe::map_partition::MapPartitionBuilder;
use crate::error::{ErrorKind, Fault, PlanError};
use crate::expr::Expr;
use crate::logical::map_partition::{LogicalNode, MapPartition};
use crate::physical::map_partition_exec::{ExecNode, MapPartitionExec, PlanInput};
use crate::physical_optimizer::enforce_distribute_by::has_hash;

verus! {

/// Plans the nodes of this library.
#[derive(Debug, Clone, Copy, Default)]
pub struct CustomPlannerExtension {}

/// `physical` are expressions that `convert` gives for `logical`, over rows of `schema`.
pub open spec fn converted<D, X, Y, E, F: Fn(&Expr<X>, &D) -> Result<Expr<Y>, E>>(
    convert: F,
    schema: &D,
    logical: Seq<Expr<X>>,
    physical: Seq<Expr<Y>>,
) -> bool {
    &&& physical.len() == logical.len()
    &&& forall|i: int|
        0 <= i < logical.len() ==> call_ensures(
            convert,
            (&#[trigger] logical[i], schema),
            Ok(physical[i]),
        )
}

/// `convert` gives `error` for one of `logical`, and none for those before it.
pub open spec fn unconverted<D, X, Y, E, F: Fn(&Expr<X>, &D) -> Result<Expr<Y>, E>>(
    convert: F,
    schema: &D,
    logical: Seq<Expr<X>>,
    error: E,
) -> bool {
    exists|i: int, before: Seq<Expr<Y>>|
        {
            &&& 0 <= i < logical.len()
            &&& #[trigger] converted(convert, schema, logical.take(i), before)
            &&& call_ensures(convert, (&logical[i], schema), Err::<Expr<Y>, E>(error))
        }
}

/// Converts each of `exprs`, up to the first error.
fn convert_all<D, X, Y, E, F: Fn(&Expr<X>, &D) -> Result<Expr<Y>, E>>(
    convert: &F,
    schema: &D,
    exprs: &Vec<Expr<X>>,
) -> (physical: Result<Vec<Expr<Y>>, E>)
    requires
        forall|expr: &Expr<X>| call_requires(*convert, (expr, schema)),
    ensures
        match physical {
            Ok(physical) => converted(*convert, schema, exprs@, physical@),
            Err(error) => unconverted::<D, X, Y, E, F>(*convert, schema, exprs@, error),
        },
{
    let mut physical: Vec<Expr<Y>> = Vec::new();
    let mut i: usize = 0;
    while i < exprs.len()
        invariant
            forall|expr: &Expr<X>| call_requires(*convert, (expr, schema)),
            i <= exprs@.len(),
            physical@.len() == i,
            forall|j: int|
                0 <= j < i ==> call_ensures(
                    *convert,
                    (&#[trigger] exprs@[j], schema),
                    Ok(physical@[j]),
                ),
        decreases exprs@.len() - i,
    {
        match convert(&exprs[i], schema) {
            Ok(expr) => {
                physical.push(expr);
            },
            Err(error) => {
                assert(converted(*convert, schema, exprs@.take(i as int), physical@));
                return Err(error);
            },
        }
        i = i + 1;
    }
    Ok(physical)
}

/// The number of partitions that a node asks for: none stands for zero.
pub open spec fn asked_partitions(num_partitions: Option<usize>) -> usize {
    match num_partitions {
        Some(n) => n,
        None => 0,
    }
}

/// The expressions that planning `node` converts for its hash partitioning: none where
/// that follows from its distribution.
pub open spec fn converted_hash<P, X>(node: LogicalNode<P, X>) -> Seq<Expr<X>> {
    if node.distribute_by is Some && asked_partitions(node.num_partitions) > 0 {
        Seq::empty()
    } else {
        match node.hash_partition {
            Some((exprs, _)) => exprs,
            None => Seq::empty(),
        }
    }
}

/// The hash partitioning of the planned node: the distribution, into the number of
/// partitions asked for; without them that of the logical node, its expressions
/// converted to `physical`.
pub open spec fn planned_hash<P, X, Y>(
    node: LogicalNode<P, X>,
    distribute_by: Option<Expr<Y>>,
    physical: Seq<Expr<Y>>,
) -> Option<(Seq<Expr<Y>>, usize)> {
    match distribute_by {
        Some(expr) if asked_partitions(node.num_partitions) > 0 => Some(
            (seq![expr], asked_partitions(node.num_partitions)),
        ),
        _ => match node.hash_partition {
            Some((_, count)) => Some((physical, count)),
            None => None,
        },
    }
}

/// The expressions of `expr`, if any.
pub open spec fn as_list<X>(expr: Option<Expr<X>>) -> Seq<Expr<X>> {
    match expr {
        Some(expr) => seq![expr],
        None => Seq::empty(),
    }
}

/// `exec` is the planned form of `node` over `input`.
pub open spec fn plans<L, X, P, Y, D, E, F: Fn(&Expr<X>, &D) -> Result<Expr<Y>, E>>(
    node: LogicalNode<L, X>,
    schema: &D,
    input: PlanInput<P, Y>,
    convert: F,
    exec: ExecNode<P, Y>,
) -> bool {
    &&& converted(convert, schema, as_list(node.distribute_by), as_list(exec.distribute_by))
    &&& exists|physical: Seq<Expr<Y>>|
        {
            &&& #[trigger] converted(convert, schema, converted_hash(node), physical)
            &&& exec == ExecNode {
                so_path: node.so_path,
                fn_name: node.fn_name,
                output_schema: node.output_schema,
                plan: input.plan,
                spread: input.partitioning@,
                distribute_by: exec.distribute_by,
                num_partitions: asked_partitions(node.num_partitions),
                hash_partition: planned_hash(node, exec.distribute_by, physical),
            }
        }
}

impl CustomPlannerExtension {
    /// Plans `node` over the first of `physical_inputs`; without a node of this library
    /// there is nothing to plan. `logical_inputs` are the schemas of the logical inputs,
    /// and `convert` plans an expression over one of them.
    pub fn plan_extension<L, X, P, Y, D, E, F: Fn(&Expr<X>, &D) -> Result<Expr<Y>, E>>(
        &self,
        node: Option<&MapPartition<L, X>>,
        logical_inputs: &Vec<D>,
        physical_inputs: Vec<PlanInput<P, Y>>,
        convert: F,
    ) -> (planned: Result<Option<MapPartitionExec<P, Y>>, Fault<E>>)
        requires
            forall|expr: &Expr<X>, schema: &D| call_requires(convert, (expr, schema)),
        ensures
            node is None ==> planned == Ok::<Option<MapPartitionExec<P, Y>>, Fault<E>>(None),
            node is Some && physical_inputs@.len() == 0 ==> (planned matches Err(Fault::Plan(e))
                && e@ == (ErrorKind::Plan, "MapPartition expects single input"@)),
            node is Some && physical_inputs@.len() > 0 && logical_inputs@.len() == 0 ==> (
            planned matches Err(Fault::Plan(e)) && e@ == (
                ErrorKind::Plan,
                "MapPartition expects single logical input"@,
            )),
            node matches Some(n) ==> (physical_inputs@.len() > 0 && logical_inputs@.len() > 0
                ==> match planned {
                Ok(Some(exec)) => exec.wf() && plans(
                    n@,
                    &logical_inputs@[0],
                    physical_inputs@[0],
                    convert,
                    exec@,
                ),
                Ok(None) => false,
                Err(Fault::Outside(error)) => unconverted::<D, X, Y, E, F>(
                    convert,
                    &logical_inputs@[0],
                    as_list(n@.distribute_by) + converted_hash(n@),
                    error,
                ),
                Err(Fault::Plan(_)) => false,
            }),
    {
        let mut physical_inputs = physical_inputs;
        let node = match node {
            Some(node) => node,
            None => return Ok(None),
        };
        if physical_inputs.len() == 0 {
            return Err(
                Fault::Plan(PlanError::new(ErrorKind::Plan, "MapPartition expects single input")),
            );
        }
        let input = physical_inputs.remove(0);
        if logical_inputs.len() == 0 {
            return Err(
                Fault::Plan(
                    PlanError::new(ErrorKind::Plan, "MapPartition expects single logical input"),
                ),
            );
        }
        let schema = &logical_inputs[0];
        let ghost listed = as_list(node@.distribute_by) + converted_hash(node@);
        let distribute_by = match &node.distribute_by {
            Some(expr) => match convert(expr, schema) {
                Ok(expr) => Some(expr),
                Err(error) => {
                    assert(listed[0] == *expr);
                    assert(converted(convert, schema, listed.take(0), Seq::<Expr<Y>>::empty()));
                    return Err(Fault::Outside(error));
                },
            },
            None => None,
        };
        let num_partitions: usize = match node.num_partitions {
            Some(n) => n,
            None => 0,
        };
        let ghost mut physical: Seq<Expr<Y>> = Seq::empty();
        let hash_partition = match &distribute_by {
            Some(expr) if num_partitions > 0 => {
                let mut by: Vec<Expr<Y>> = Vec::new();
                by.push(expr.dup());
                Some((by, num_partitions))
            },
            _ => match &node.hash_partition {
                Some((exprs, count)) => match convert_all(&convert, schema, exprs) {
                    Ok(exprs) => {
                        proof {
                            physical = exprs@;
                        }
                        Some((exprs, *count))
                    },
                    Err(error) => {
                        proof {
                            let (i, before) = choose|i: int, before: Seq<Expr<Y>>|
                                {
                                    &&& 0 <= i < exprs@.len()
                                    &&& #[trigger] converted(
                                        convert,
                                        schema,
                                        exprs@.take(i),
                                        before,
                                    )
                                    &&& call_ensures(
                                        convert,
                                        (&exprs@[i], schema),
                                        Err::<Expr<Y>, E>(error),
                                    )
                                };
                            let k = as_list(node@.distribute_by).len() + i;
                            let all = as_list(distribute_by) + before;
                            assert(listed[k] == exprs@[i]);
                            assert forall|j: int| 0 <= j < k implies call_ensures(
                                convert,
                                (&#[trigger] listed.take(k)[j], schema),
                                Ok(all[j]),
                            ) by {
                                if j >= as_list(node@.distribute_by).len() {
                                    let m = j - as_list(node@.distribute_by).len();
                                    assert(exprs@.take(i)[m] == listed.take(k)[j]);
                                }
                            }
                            assert(converted(convert, schema, listed.take(k), all));
                        }
                        return Err(Fault::Outside(error));
                    },
                },
                None => None,
            },
        };
        assert(converted(convert, schema, converted_hash(node@), physical));
        Ok(
            Some(
                MapPartitionExec::new(
                    node.so_path.clone(),
                    node.fn_name.clone(),
                    node.output_schema.clone(),
                    input,
                    distribute_by,
                    num_partitions,
                    hash_partition,
                ),
            ),
        )
    }
}

/// The planned form of a node that distributes by key into at least one partition has
/// the hash partitioning that goes with it, by that key alone.
pub proof fn lemma_planned_hash<L, X, P, Y, D, E, F: Fn(&Expr<X>, &D) -> Result<Expr<Y>, E>>(
    node: LogicalNode<L, X>,
    schema: &D,
    input: PlanInput<P, Y>,
    convert: F,
    exec: ExecNode<P, Y>,
)
    requires
        plans(node, schema, input, convert, exec),
        node.distribute_by is Some,
        asked_partitions(node.num_partitions) > 0,
    ensures
        exec.distribute_by is Some,
        has_hash(exec),
        exec.hash_partition == Some((seq![exec.distribute_by->0], exec.num_partitions)),
{
    assert(as_list(node.distribute_by).len() == as_list(exec.distribute_by).len());
}

/// The planned node runs the function of the logical node over the input that it is given, has
/// its number of partitions, and distributes by its key, converted. Where it distributes by key
/// into more than no partitions, it is hash partitioned by that key alone into that number; else
/// it has the hash partitioning of the logical node, each expression converted.
pub proof fn lemma_planned<L, X, P, Y, D, E, F: Fn(&Expr<X>, &D) -> Result<Expr<Y>, E>>(
    planner: CustomPlannerExtension,
    node: &MapPartition<L, X>,
    logical_inputs: Vec<D>,
    physical_inputs: Vec<PlanInput<P, Y>>,
    convert: F,
    exec: MapPartitionExec<P, Y>,
)
    requires
        call_ensures(
            CustomPlannerExtension::plan_extension,
            (&planner, Some(node), &logical_inputs, physical_inputs, convert),
            Ok::<Option<MapPartitionExec<P, Y>>, Fault<E>>(Some(exec)),
        ),
    ensures
        logical_inputs@.len() > 0 && physical_inputs@.len() > 0,
        exec@.so_path == node@.so_path,
        exec@.fn_name == node@.fn_name,
        exec@.output_schema == node@.output_schema,
        exec@.plan == physical_inputs@[0].plan,
        exec@.spread == physical_inputs@[0].partitioning@,
        node@.num_partitions matches Some(n) ==> exec@.num_partitions == n,
        node@.num_partitions is None ==> exec@.num_partitions == 0,
        match (node@.distribute_by, exec@.distribute_by) {
            (Some(expr), Some(by)) => call_ensures(
                convert,
                (&expr, &logical_inputs@[0]),
                Ok::<Expr<Y>, E>(by),
            ),
            (None, None) => true,
            _ => false,
        },
        node@.distribute_by is Some ==> (node@.num_partitions matches Some(n) ==> (n > 0
            ==> exec@.hash_partition == Some((seq![exec@.distribute_by->0], n)))),
        node@.distribute_by is None || node@.num_partitions is None || node@.num_partitions == Some(
            0usize,
        ) ==> match (node@.hash_partition, exec@.hash_partition) {
            (Some((exprs, m)), Some((by, n))) => n == m && by.len() == exprs.len() && forall|
                i: int,
            |
                0 <= i < exprs.len() ==> call_ensures(
                    convert,
                    (&#[trigger] exprs[i], &logical_inputs@[0]),
                    Ok::<Expr<Y>, E>(by[i]),
                ),
            (None, None) => true,
            _ => false,
        },
{
    assert(as_list(node@.distribute_by).len() == as_list(exec@.distribute_by).len());
    if let (Some(expr), Some(by)) = (node@.distribute_by, exec@.distribute_by) {
        assert(as_list(node@.distribute_by)[0] == expr);
        assert(as_list(exec@.distribute_by)[0] == by);
    }
}

/// A node that was built to distribute by `expr` into `n` partitions is planned so: by what
/// `expr` is converted to, into `n` partitions, hash partitioned by it.
pub proof fn lemma_distribution_planned<
    S,
    L,
    X,
    P,
    Y,
    D,
    E,
    F: Fn(&Expr<X>, &D) -> Result<Expr<Y>, E>,
>(
    builder: MapPartitionBuilder<S, L, X>,
    expr: Expr<X>,
    n: usize,
    distributed: MapPartitionBuilder<S, L, X>,
    built: (S, MapPartition<L, X>),
    planner: CustomPlannerExtension,
    logical_inputs: Vec<D>,
    physical_inputs: Vec<PlanInput<P, Y>>,
    convert: F,
    exec: MapPartitionExec<P, Y>,
)
    requires
        call_ensures(
            MapPartitionBuilder::<S, L, X>::with_distribute_by,
            (builder, expr, n),
            Ok::<MapPartitionBuilder<S, L, X>, PlanError>(distributed),
        ),
        call_ensures(MapPartitionBuilder::<S, L, X>::build, (distributed,), built),
        call_ensures(
            CustomPlannerExtension::plan_extension,
            (&planner, Some(&built.1), &logical_inputs, physical_inputs, convert),
            Ok::<Option<MapPartitionExec<P, Y>>, Fault<E>>(Some(exec)),
        ),
    ensures
        n > 0,
        exec@.so_path == builder.so_path@,
        exec@.fn_name == builder.fn_name@,
        exec@.num_partitions == n,
        exec@.distribute_by matches Some(by) && call_ensures(
            convert,
            (&expr, &logical_inputs@[0]),
            Ok::<Expr<Y>, E>(by),
        ) && exec@.hash_partition == Some((seq![by], n)),
{
    lemma_planned(planner, &built.1, logical_inputs, physical_inputs, convert, exec);
}

/// Planning succeeds where there are inputs and every expression can be converted; an error is
/// what converting an expression of the node gave.
pub proof fn lemma_planning_fails<L, X, P, Y, D, E, F: Fn(&Expr<X>, &D) -> Result<Expr<Y>, E>>(
    planner: CustomPlannerExtension,
    node: &MapPartition<L, X>,
    logical_inputs: Vec<D>,
    physical_inputs: Vec<PlanInput<P, Y>>,
    convert: F,
    planned: Result<Option<MapPartitionExec<P, Y>>, Fault<E>>,
)
    requires
        call_ensures(
            CustomPlannerExtension::plan_extension,
            (&planner, Some(node), &logical_inputs, physical_inputs, convert),
            planned,
        ),
        logical_inputs@.len() > 0,
        physical_inputs@.len() > 0,
    ensures
        planned matches Ok(exec) ==> exec is Some,
        planned matches Err(fault) ==> (fault matches Fault::Outside(error) && exists|expr: Expr<X>|
            {
                &&& #[trigger] call_ensures(
                    convert,
                    (&expr, &logical_inputs@[0]),
                    Err::<Expr<Y>, E>(error),
                )
                &&& node@.distribute_by == Some(expr) || (node@.hash_partition matches Some((by, _))
                    && by.contains(expr))
            }),
{
    if let Err(Fault::Outside(error)) = planned {
        let listed = as_list(node@.distribute_by) + converted_hash(node@);
        let (i, before) = choose|i: int, before: Seq<Expr<Y>>|
            {
                &&& 0 <= i < listed.len()
                &&& #[trigger] converted(convert, &logical_inputs@[0], listed.take(i), before)
                &&& call_ensures(
                    convert,
                    (&listed[i], &logical_inputs@[0]),
                    Err::<Expr<Y>, E>(error),
                )
            };
        let expr = listed[i];
        assert(call_ensures(convert, (&expr, &logical_inputs@[0]), Err::<Expr<Y>, E>(error)));
        if i >= as_list(node@.distribute_by).len() {
            let j = i - as_list(node@.distribute_by).len();
            assert(converted_hash(node@)[j] == expr);
            assert(converted_hash(node@).contains(expr));
        }
    }
}

} // verus!
