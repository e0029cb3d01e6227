//! Building a logical node step by step.
use std::sync::Arc;

use arrow::datatypes::Schema;
use vstd::prelude::*;

use crate::error::{ErrorKind, PlanError};
use crate::expr::{hash_view, Expr};
use crate::logical::map_partition::{LogicalNode, MapPartition};
use crate::text::text_of;

verus! {

/// Builds a node over `input`; `state` is what the session needs to run the plan.
#[derive(Debug)]
pub struct MapPartitionBuilder<S, P, X> {
    pub state: S,
    pub so_path: String,
    pub fn_name: String,
    pub output_schema: Arc<Schema>,
    pub input: P,
    pub distribute_by: Option<Expr<X>>,
    pub num_partitions: Option<usize>,
    /// Follows the distribution.
    pub hash_partition: Option<(Vec<Expr<X>>, usize)>,
}

impl<S, P, X> View for MapPartitionBuilder<S, P, X> {
    type V = LogicalNode<P, X>;

    /// The node built so far.
    open spec fn view(&self) -> LogicalNode<P, X> {
        LogicalNode {
            so_path: self.so_path@,
            fn_name: self.fn_name@,
            output_schema: self.output_schema,
            input: self.input,
            distribute_by: self.distribute_by,
            num_partitions: self.num_partitions,
            hash_partition: hash_view(self.hash_partition),
        }
    }
}

/// The error for settings that are not acceptable.
pub open spec fn refused(message: Seq<char>) -> (ErrorKind, Seq<char>) {
    (ErrorKind::Configuration, message)
}

/// Starts a node that runs `fn_name` of the library at `so_path` over `input`. `schema`
/// is the schema of the rows that it gives, or why it is none.
pub fn map_partition<S, P, X>(
    state: S,
    input: P,
    so_path: &str,
    fn_name: &str,
    schema: Result<Arc<Schema>, String>,
) -> (builder: Result<MapPartitionBuilder<S, P, X>, PlanError>)
    ensures
        match builder {
            Ok(builder) => {
                &&& so_path@.len() > 0 && fn_name@.len() > 0
                &&& builder.state == state
                &&& schema matches Ok(output_schema) && builder@ == (LogicalNode::<P, X> {
                    so_path: so_path@,
                    fn_name: fn_name@,
                    output_schema,
                    input,
                    distribute_by: None,
                    num_partitions: None,
                    hash_partition: None,
                })
            },
            Err(error) => if so_path@.len() == 0 {
                error@ == refused("so_path cannot be empty"@)
            } else if fn_name@.len() == 0 {
                error@ == refused("fn_name cannot be empty"@)
            } else {
                schema matches Err(reason) && error@ == refused(
                    "invalid output schema: "@ + reason@,
                )
            },
        },
{
    if so_path.is_empty() {
        return Err(PlanError::new(ErrorKind::Configuration, "so_path cannot be empty"));
    }
    if fn_name.is_empty() {
        return Err(PlanError::new(ErrorKind::Configuration, "fn_name cannot be empty"));
    }
    match schema {
        Ok(output_schema) => Ok(
            MapPartitionBuilder {
                state,
                so_path: so_path.to_owned(),
                fn_name: fn_name.to_owned(),
                output_schema,
                input,
                distribute_by: None,
                num_partitions: None,
                hash_partition: None,
            },
        ),
        Err(reason) => Err(
            PlanError {
                kind: ErrorKind::Configuration,
                message: text_of("invalid output schema: ", reason.as_str()),
            },
        ),
    }
}

impl<S, P, X> MapPartitionBuilder<S, P, X> {
    /// Sends rows with the same value of `expr` to the same processor and rows with
    /// different values to different ones. `num_partitions` should not be less than the
    /// number of values; it cannot be zero.
    pub fn with_distribute_by(self, expr: Expr<X>, num_partitions: usize) -> (builder: Result<
        MapPartitionBuilder<S, P, X>,
        PlanError,
    >)
        ensures
            num_partitions > 0 ==> (builder matches Ok(new) && new.state == self.state && new@ == (
            LogicalNode {
                distribute_by: Some(expr),
                num_partitions: Some(num_partitions),
                hash_partition: Some((seq![expr], num_partitions)),
                ..self@
            })),
            num_partitions == 0 ==> (builder matches Err(e) && e@ == refused(
                "num_partitions must be > 0"@,
            )),
    {
        if num_partitions == 0 {
            return Err(PlanError::new(ErrorKind::Configuration, "num_partitions must be > 0"));
        }
        let mut by: Vec<Expr<X>> = Vec::new();
        by.push(expr.dup());
        Ok(
            MapPartitionBuilder {
                state: self.state,
                so_path: self.so_path,
                fn_name: self.fn_name,
                output_schema: self.output_schema,
                input: self.input,
                distribute_by: Some(expr),
                num_partitions: Some(num_partitions),
                hash_partition: Some((by, num_partitions)),
            },
        )
    }

    /// The node, with the session state.
    pub fn build(self) -> (built: (S, MapPartition<P, X>))
        ensures
            built.0 == self.state,
            built.1@ == self@,
    {
        (
            self.state,
            MapPartition::new(
                self.so_path,
                self.fn_name,
                self.output_schema,
                self.input,
                self.distribute_by,
                self.num_partitions,
                self.hash_partition,
            ),
        )
    }
}

/// A node is started exactly where the path and the name are not empty and the schema is one; it
/// then distributes by nothing.
pub proof fn lemma_started<S, P, X>(
    state: S,
    input: P,
    so_path: &str,
    fn_name: &str,
    schema: Result<Arc<Schema>, String>,
    builder: Result<MapPartitionBuilder<S, P, X>, PlanError>,
)
    requires
        call_ensures(
            map_partition::<S, P, X>,
            (state, input, so_path, fn_name, schema),
            builder,
        ),
    ensures
        builder is Ok <==> so_path@.len() > 0 && fn_name@.len() > 0 && schema is Ok,
        builder matches Ok(b) ==> {
            &&& b.state == state && b.input == input
            &&& b.so_path@ == so_path@ && b.fn_name@ == fn_name@
            &&& schema == Ok::<Arc<Schema>, String>(b.output_schema)
            &&& b.distribute_by is None && b.num_partitions is None && b.hash_partition is None
        },
        builder matches Err(e) ==> e.kind == ErrorKind::Configuration,
{
}

/// A node is set to distribute by a key exactly where the number of partitions is not zero: it
/// then has the key and the number, and is hash partitioned by the key alone into that number.
/// What was set before is gone, and the rest stays.
pub proof fn lemma_distributed<S, P, X>(
    builder: MapPartitionBuilder<S, P, X>,
    expr: Expr<X>,
    num_partitions: usize,
    distributed: Result<MapPartitionBuilder<S, P, X>, PlanError>,
)
    requires
        call_ensures(
            MapPartitionBuilder::<S, P, X>::with_distribute_by,
            (builder, expr, num_partitions),
            distributed,
        ),
    ensures
        distributed is Ok <==> num_partitions > 0,
        distributed matches Ok(b) ==> {
            &&& b.distribute_by == Some(expr)
            &&& b.num_partitions == Some(num_partitions)
            &&& b@.hash_partition == Some((seq![expr], num_partitions))
            &&& b.state == builder.state && b.input == builder.input
            &&& b.so_path@ == builder.so_path@ && b.fn_name@ == builder.fn_name@
            &&& b.output_schema == builder.output_schema
        },
        distributed matches Err(e) ==> e.kind == ErrorKind::Configuration,
{
    if let Ok(b) = distributed {
        assert(b@.distribute_by == b.distribute_by);
        assert(b@.num_partitions == b.num_partitions);
        assert(b@.input == b.input);
        assert(b@.so_path == b.so_path@);
        assert(b@.fn_name == b.fn_name@);
        assert(b@.output_schema == b.output_schema);
    }
}

/// A node that is built holds what was set, with the session state as it was.
pub proof fn lemma_built<S, P, X>(
    builder: MapPartitionBuilder<S, P, X>,
    built: (S, MapPartition<P, X>),
)
    requires
        call_ensures(MapPartitionBuilder::<S, P, X>::build, (builder,), built),
    ensures
        built.0 == builder.state,
        built.1@.so_path == builder.so_path@,
        built.1@.fn_name == builder.fn_name@,
        built.1@.output_schema == builder.output_schema,
        built.1@.input == builder.input,
        built.1@.distribute_by == builder.distribute_by,
        built.1@.num_partitions == builder.num_partitions,
        builder.hash_partition is None ==> built.1@.hash_partition is None,
        builder.hash_partition matches Some((exprs, n)) ==> built.1@.hash_partition == Some(
            (exprs@, n),
        ),
{
}

} // verus!
