//! Encoding plan nodes to messages and back.
use std::sync::Arc;

use arrow::datatypes::Schema;
use vstd::prelude::*;

use crate::codec::framing::{
    contents, decode_length_delimited, decode_length_delimited_list, encode_length_delimited,
    encode_length_delimited_list, first_frame, framed, frames, varint_bytes,
};
use crate::codec::messages::{LExtension, LMessage, MapPartitionFields, PExtension, PMessage};
use crate::error::{internal_error, ErrorKind, PlanError};
use crate::expr::{hash_view, Expr};
use crate::logical::map_partition::{LogicalNode, MapPartition};
use crate::mapping::{map_all, mapped, unmapped};
use crate::physical::map_partition_exec::{
    encode_schema_to_ipc, schema_too_large, ExecNode, MapPartitionExec, PlanInput,
};
use crate::schema::schema_message;

verus! {

/// `bytes` are the wire form of expressions: as `serialize` gives them, framed.
pub open spec fn list_encodes<X, S: Fn(&Expr<X>) -> Result<Vec<u8>, String>>(
    serialize: S,
    exprs: Seq<Expr<X>>,
    bytes: Seq<u8>,
) -> bool {
    exists|nodes: Seq<Vec<u8>>| #[trigger]
        mapped(serialize, exprs, nodes) && bytes == framed(contents(nodes))
}

/// `bytes` and `count` are the wire form of a hash partitioning: its expressions as
/// `serialize` gives them, framed, and its number of partitions; empty and zero where
/// there is none.
pub open spec fn hash_encodes<X, S: Fn(&Expr<X>) -> Result<Vec<u8>, String>>(
    serialize: S,
    hash: Option<(Seq<Expr<X>>, usize)>,
    bytes: Seq<u8>,
    count: u64,
) -> bool {
    match hash {
        Some((exprs, n)) => count == n && list_encodes(serialize, exprs, bytes),
        None => count == 0 && bytes.len() == 0,
    }
}

/// `bytes` are the wire form of a distribution: the expression as `serialize` gives it,
/// framed; empty where there is none.
pub open spec fn key_encodes<X, S: Fn(&Expr<X>) -> Result<Vec<u8>, String>>(
    serialize: S,
    key: Option<Expr<X>>,
    bytes: Seq<u8>,
) -> bool {
    match key {
        Some(expr) => exists|node: Vec<u8>| #[trigger]
            call_ensures(serialize, (&expr,), Ok(node)) && bytes == varint_bytes(node@.len())
                + node@,
        None => bytes.len() == 0,
    }
}

/// The wire form of a hash partitioning; `context` says what went wrong where an
/// expression cannot be serialised.
fn encode_hash<X, S: Fn(&Expr<X>) -> Result<Vec<u8>, String>>(
    serialize: &S,
    hash: &Option<(Vec<Expr<X>>, usize)>,
    context: &str,
) -> (encoded: Result<(Vec<u8>, u64), PlanError>)
    requires
        forall|expr: &Expr<X>| call_requires(*serialize, (expr,)),
    ensures
        match encoded {
            Ok((bytes, count)) => hash_encodes(*serialize, hash_view(*hash), bytes@, count),
            Err(e) => hash_view(*hash) matches Some((exprs, _)) && step_fails::<
                Expr<X>,
                Vec<u8>,
                S,
            >(*serialize, exprs, context@, e@),
        },
{
    let (exprs, count) = match hash {
        Some((exprs, count)) => (exprs, *count),
        None => return Ok((Vec::new(), 0)),
    };
    let nodes = match map_all(serialize, exprs) {
        Ok(nodes) => nodes,
        Err(text) => {
            let e = PlanError::internal(context, text.as_str());
            assert(e@ == internal_error(context@, text@));
            assert(step_fails::<Expr<X>, Vec<u8>, S>(*serialize, exprs@, context@, e@));
            return Err(e);
        },
    };
    match encode_length_delimited_list(&nodes) {
        Ok(bytes) => {
            assert(list_encodes(*serialize, exprs@, bytes@));
            Ok((bytes, count as u64))
        },
        Err(e) => Err(e),
    }
}

/// The wire form of a distribution.
fn encode_key<X, S: Fn(&Expr<X>) -> Result<Vec<u8>, String>>(
    serialize: &S,
    key: &Option<Expr<X>>,
) -> (encoded: Result<Vec<u8>, PlanError>)
    requires
        forall|expr: &Expr<X>| call_requires(*serialize, (expr,)),
    ensures
        match encoded {
            Ok(bytes) => key_encodes(*serialize, *key, bytes@),
            Err(e) => key_fails(*serialize, *key, e@),
        },
{
    match key {
        Some(expr) => match serialize(expr) {
            Ok(node) => match encode_length_delimited(&node) {
                Ok(bytes) => Ok(bytes),
                Err(text) => Err(
                    PlanError::internal("failed to encode distribute_by expr: ", text.as_str()),
                ),
            },
            Err(text) => Err(
                PlanError::internal("failed to serialize distribute_by expr: ", text.as_str()),
            ),
        },
        None => Ok(Vec::new()),
    }
}

/// `serialize` gives an error for the distribution, and `error` says so.
pub open spec fn key_fails<X, S: Fn(&Expr<X>) -> Result<Vec<u8>, String>>(
    serialize: S,
    key: Option<Expr<X>>,
    error: (ErrorKind, Seq<char>),
) -> bool {
    key matches Some(expr) && exists|text: String| #[trigger]
        call_ensures(serialize, (&expr,), Err::<Vec<u8>, String>(text)) && error == internal_error(
            "failed to serialize distribute_by expr: "@,
            text@,
        )
}

/// The expressions that `bytes` hold: each message of the list decoded, and then parsed.
pub open spec fn list_decodes<
    N,
    X,
    D: Fn(&Vec<u8>) -> Result<N, String>,
    G: Fn(&N) -> Result<Expr<X>, String>,
>(decode: D, parse: G, bytes: Seq<u8>, exprs: Seq<Expr<X>>) -> bool {
    &&& frames(bytes).1 is None
    &&& exists|items: Seq<Vec<u8>>, nodes: Seq<N>|
        {
            &&& contents(items) == frames(bytes).0
            &&& #[trigger] mapped(decode, items, nodes)
            &&& #[trigger] mapped(parse, nodes, exprs)
        }
}

/// `f` gives an error for one of `inputs`, and `error` says so.
pub open spec fn step_fails<A, B, F: Fn(&A) -> Result<B, String>>(
    f: F,
    inputs: Seq<A>,
    context: Seq<char>,
    error: (ErrorKind, Seq<char>),
) -> bool {
    exists|text: String| #[trigger]
        unmapped::<A, B, String, F>(f, inputs, text) && error == internal_error(context, text@)
}

/// A message of the list is malformed, cannot be decoded or cannot be parsed, and
/// `error` says so. A message that cannot be decoded comes before a malformed one, and
/// both before one that cannot be parsed.
pub open spec fn list_undecodable<
    N,
    X,
    D: Fn(&Vec<u8>) -> Result<N, String>,
    G: Fn(&N) -> Result<Expr<X>, String>,
>(decode: D, parse: G, context: Seq<char>, bytes: Seq<u8>, error: (ErrorKind, Seq<char>)) -> bool {
    let (found, malformed) = frames(bytes);
    exists|items: Seq<Vec<u8>>|
        {
            &&& #[trigger] contents(items) == found
            &&& {
                ||| step_fails::<Vec<u8>, N, D>(
                    decode,
                    items,
                    "failed to decode expr list: "@,
                    error,
                )
                ||| exists|nodes: Seq<N>|
                    {
                        &&& #[trigger] mapped(decode, items, nodes)
                        &&& malformed is Some ==> error == internal_error(
                            "failed to decode expr list: "@,
                            malformed->0,
                        )
                        &&& malformed is None ==> step_fails::<N, Expr<X>, G>(
                            parse,
                            nodes,
                            context,
                            error,
                        )
                    }
            }
        }
}

/// The expressions that `bytes` hold.
fn decode_list<
    N,
    X,
    D: Fn(&Vec<u8>) -> Result<N, String>,
    G: Fn(&N) -> Result<Expr<X>, String>,
>(decode: &D, parse: &G, context: &str, bytes: &Vec<u8>) -> (decoded: Result<
    Vec<Expr<X>>,
    PlanError,
>)
    requires
        forall|item: &Vec<u8>| call_requires(*decode, (item,)),
        forall|node: &N| call_requires(*parse, (node,)),
    ensures
        match decoded {
            Ok(exprs) => list_decodes(*decode, *parse, bytes@, exprs@),
            Err(e) => list_undecodable::<N, X, D, G>(*decode, *parse, context@, bytes@, e@),
        },
{
    let (items, error) = decode_length_delimited_list(bytes.as_slice());
    let nodes = match map_all(decode, &items) {
        Ok(nodes) => nodes,
        Err(text) => {
            let e = PlanError::internal("failed to decode expr list: ", text.as_str());
            proof {
                assert(e@ == internal_error("failed to decode expr list: "@, text@));
                assert(step_fails::<Vec<u8>, N, D>(
                    *decode,
                    items@,
                    "failed to decode expr list: "@,
                    e@,
                ));
                assert(contents(items@) == frames(bytes@).0);
                assert(list_undecodable::<N, X, D, G>(*decode, *parse, context@, bytes@, e@));
            }
            return Err(e);
        },
    };
    if let Some(e) = error {
        proof {
            let text = frames(bytes@).1->0;
            assert(e@ == internal_error("failed to decode expr list: "@, text));
            assert(mapped(*decode, items@, nodes@));
            assert(list_undecodable::<N, X, D, G>(*decode, *parse, context@, bytes@, e@));
        }
        return Err(e);
    }
    match map_all(parse, &nodes) {
        Ok(exprs) => {
            assert(list_decodes(*decode, *parse, bytes@, exprs@));
            Ok(exprs)
        },
        Err(text) => {
            let e = PlanError::internal(context, text.as_str());
            proof {
                assert(e@ == internal_error(context@, text@));
                assert(step_fails::<N, Expr<X>, G>(*parse, nodes@, context@, e@));
                assert(mapped(*decode, items@, nodes@));
                assert(contents(items@) == frames(bytes@).0);
                assert(list_undecodable::<N, X, D, G>(*decode, *parse, context@, bytes@, e@));
            }
            Err(e)
        },
    }
}

/// The hash partitioning that `bytes` and `count` hold: none where the count is zero.
pub open spec fn hash_decodes<
    N,
    X,
    D: Fn(&Vec<u8>) -> Result<N, String>,
    G: Fn(&N) -> Result<Expr<X>, String>,
>(
    decode: D,
    parse: G,
    bytes: Seq<u8>,
    count: u64,
    hash: Option<(Seq<Expr<X>>, usize)>,
) -> bool {
    if count > 0 {
        hash matches Some((exprs, n)) && n == count as usize && list_decodes(
            decode,
            parse,
            bytes,
            exprs,
        )
    } else {
        hash is None
    }
}

/// `expr` is what the message `item` holds.
pub open spec fn item_decodes<
    N,
    X,
    D: Fn(&Vec<u8>) -> Result<N, String>,
    G: Fn(&N) -> Result<Expr<X>, String>,
>(decode: D, parse: G, item: Seq<u8>, expr: Expr<X>) -> bool {
    exists|bytes: Vec<u8>, node: N|
        {
            &&& bytes@ == item
            &&& #[trigger] call_ensures(decode, (&bytes,), Ok(node))
            &&& #[trigger] call_ensures(parse, (&node,), Ok(expr))
        }
}

/// The message `item` cannot be decoded, and `error` says so.
pub open spec fn item_fails<N, D: Fn(&Vec<u8>) -> Result<N, String>>(
    decode: D,
    item: Seq<u8>,
    error: (ErrorKind, Seq<char>),
) -> bool {
    exists|bytes: Vec<u8>, text: String|
        {
            &&& bytes@ == item
            &&& #[trigger] call_ensures(decode, (&bytes,), Err::<N, String>(text))
            &&& error == internal_error("failed to decode distribute_by expr: "@, text@)
        }
}

/// What the message `item` holds cannot be parsed, and `error` says so.
pub open spec fn item_unparsable<
    N,
    X,
    D: Fn(&Vec<u8>) -> Result<N, String>,
    G: Fn(&N) -> Result<Expr<X>, String>,
>(decode: D, parse: G, item: Seq<u8>, error: (ErrorKind, Seq<char>)) -> bool {
    exists|bytes: Vec<u8>, node: N, text: String|
        {
            &&& bytes@ == item
            &&& #[trigger] call_ensures(decode, (&bytes,), Ok(node))
            &&& #[trigger] call_ensures(parse, (&node,), Err::<Expr<X>, String>(text))
            &&& error == internal_error("failed to parse distribute_by expr: "@, text@)
        }
}

/// The distribution that `bytes` hold: none where they are empty.
pub open spec fn key_decodes<
    N,
    X,
    D: Fn(&Vec<u8>) -> Result<N, String>,
    G: Fn(&N) -> Result<Expr<X>, String>,
>(decode: D, parse: G, bytes: Seq<u8>, key: Option<Expr<X>>) -> bool {
    if bytes.len() > 0 {
        match (first_frame(bytes), key) {
            (Ok((item, _)), Some(expr)) => item_decodes(decode, parse, item, expr),
            _ => false,
        }
    } else {
        key is None
    }
}

/// The distribution is malformed, cannot be decoded or cannot be parsed, and `error` says
/// so.
pub open spec fn key_undecodable<
    N,
    X,
    D: Fn(&Vec<u8>) -> Result<N, String>,
    G: Fn(&N) -> Result<Expr<X>, String>,
>(decode: D, parse: G, bytes: Seq<u8>, error: (ErrorKind, Seq<char>)) -> bool {
    &&& bytes.len() > 0
    &&& match first_frame(bytes) {
        Err(text) => error == internal_error("failed to decode distribute_by expr: "@, text),
        Ok((item, _)) => item_fails::<N, D>(decode, item, error) || item_unparsable::<N, X, D, G>(
            decode,
            parse,
            item,
            error,
        ),
    }
}

/// The hash partitioning that `bytes` and `count` hold.
fn decode_hash<
    N,
    X,
    D: Fn(&Vec<u8>) -> Result<N, String>,
    G: Fn(&N) -> Result<Expr<X>, String>,
>(decode: &D, parse: &G, context: &str, bytes: &Vec<u8>, count: u64) -> (decoded: Result<
    Option<(Vec<Expr<X>>, usize)>,
    PlanError,
>)
    requires
        forall|item: &Vec<u8>| call_requires(*decode, (item,)),
        forall|node: &N| call_requires(*parse, (node,)),
    ensures
        match decoded {
            Ok(hash) => hash_decodes(*decode, *parse, bytes@, count, hash_view(hash)),
            Err(e) => count > 0 && list_undecodable::<N, X, D, G>(
                *decode,
                *parse,
                context@,
                bytes@,
                e@,
            ),
        },
{
    if count > 0 {
        match decode_list(decode, parse, context, bytes) {
            Ok(exprs) => Ok(Some((exprs, count as usize))),
            Err(e) => Err(e),
        }
    } else {
        Ok(None)
    }
}

/// The distribution that `bytes` hold.
fn decode_key<
    N,
    X,
    D: Fn(&Vec<u8>) -> Result<N, String>,
    G: Fn(&N) -> Result<Expr<X>, String>,
>(decode: &D, parse: &G, bytes: &Vec<u8>) -> (decoded: Result<Option<Expr<X>>, PlanError>)
    requires
        forall|item: &Vec<u8>| call_requires(*decode, (item,)),
        forall|node: &N| call_requires(*parse, (node,)),
    ensures
        match decoded {
            Ok(key) => key_decodes(*decode, *parse, bytes@, key),
            Err(e) => key_undecodable::<N, X, D, G>(*decode, *parse, bytes@, e@),
        },
{
    if bytes.len() == 0 {
        return Ok(None);
    }
    let item = match decode_length_delimited(bytes) {
        Ok(item) => item,
        Err(text) => {
            return Err(PlanError::internal("failed to decode distribute_by expr: ", text.as_str()));
        },
    };
    let node = match decode(&item) {
        Ok(node) => node,
        Err(text) => {
            let e = PlanError::internal("failed to decode distribute_by expr: ", text.as_str());
            assert(e@ == internal_error("failed to decode distribute_by expr: "@, text@));
            assert(item_fails::<N, D>(*decode, item@, e@));
            return Err(e);
        },
    };
    match parse(&node) {
        Ok(expr) => {
            assert(item_decodes(*decode, *parse, item@, expr));
            Ok(Some(expr))
        },
        Err(text) => {
            let e = PlanError::internal("failed to parse distribute_by expr: ", text.as_str());
            assert(e@ == internal_error("failed to parse distribute_by expr: "@, text@));
            assert(item_unparsable::<N, X, D, G>(*decode, *parse, item@, e@));
            Err(e)
        },
    }
}

/// `fields` are the wire form of a node.
pub open spec fn fields_encode<X, S: Fn(&Expr<X>) -> Result<Vec<u8>, String>>(
    serialize: S,
    node: NodeFields<X>,
    fields: MapPartitionFields,
) -> bool {
    &&& fields.so_path@ == node.so_path
    &&& fields.fn_name@ == node.fn_name
    &&& schema_message(node.output_schema) == Some(fields.output_schema@)
    &&& hash_encodes(
        serialize,
        node.hash_partition,
        fields.hash_partition_exprs@,
        fields.hash_partition_count,
    )
    &&& key_encodes(serialize, node.distribute_by, fields.distribute_by_expr@)
    &&& fields.num_partitions == node.num_partitions
}

/// What the wire form of a node holds.
pub struct NodeFields<X> {
    pub so_path: Seq<char>,
    pub fn_name: Seq<char>,
    pub output_schema: Schema,
    pub distribute_by: Option<Expr<X>>,
    pub num_partitions: usize,
    pub hash_partition: Option<(Seq<Expr<X>>, usize)>,
}

/// The schema of the node cannot be encoded, or an expression of the node cannot be
/// serialised, and `error` says so: `context` for one of the hash partitioning. The schema
/// comes first, then the expressions of the hash partitioning.
pub open spec fn fields_fail<X, S: Fn(&Expr<X>) -> Result<Vec<u8>, String>>(
    serialize: S,
    node: NodeFields<X>,
    context: Seq<char>,
    error: (ErrorKind, Seq<char>),
) -> bool {
    ||| schema_message(node.output_schema) is None && error == schema_too_large()
    ||| schema_message(node.output_schema) is Some && (node.hash_partition matches Some((exprs, _))
        && step_fails::<Expr<X>, Vec<u8>, S>(serialize, exprs, context, error))
    ||| schema_message(node.output_schema) is Some && key_fails(
        serialize,
        node.distribute_by,
        error,
    ) && exists|bytes: Seq<u8>, count: u64| #[trigger]
        hash_encodes(serialize, node.hash_partition, bytes, count)
}

/// The wire form of a node.
fn encode_fields<X, S: Fn(&Expr<X>) -> Result<Vec<u8>, String>>(
    serialize: &S,
    so_path: &String,
    fn_name: &String,
    output_schema: &Schema,
    distribute_by: &Option<Expr<X>>,
    num_partitions: usize,
    hash_partition: &Option<(Vec<Expr<X>>, usize)>,
    context: &str,
) -> (encoded: Result<MapPartitionFields, PlanError>)
    requires
        forall|expr: &Expr<X>| call_requires(*serialize, (expr,)),
    ensures
        ({
            let node = NodeFields {
                so_path: so_path@,
                fn_name: fn_name@,
                output_schema: *output_schema,
                distribute_by: *distribute_by,
                num_partitions,
                hash_partition: hash_view(*hash_partition),
            };
            match encoded {
                Ok(fields) => fields_encode(*serialize, node, fields),
                Err(e) => fields_fail(*serialize, node, context@, e@),
            }
        }),
{
    let schema_bytes = match encode_schema_to_ipc(output_schema) {
        Ok(bytes) => bytes,
        Err(e) => return Err(e),
    };
    let (hash_partition_exprs, hash_partition_count) = match encode_hash(
        serialize,
        hash_partition,
        context,
    ) {
        Ok(encoded) => encoded,
        Err(e) => return Err(e),
    };
    assert(hash_encodes(
        *serialize,
        hash_view(*hash_partition),
        hash_partition_exprs@,
        hash_partition_count,
    ));
    let distribute_by_expr = match encode_key(serialize, distribute_by) {
        Ok(bytes) => bytes,
        Err(e) => return Err(e),
    };
    Ok(
        MapPartitionFields {
            so_path: so_path.clone(),
            fn_name: fn_name.clone(),
            output_schema: schema_bytes,
            hash_partition_exprs,
            hash_partition_count,
            distribute_by_expr,
            num_partitions: num_partitions as u64,
        },
    )
}

/// Encodes and decodes logical nodes.
#[derive(Debug, Clone, Copy, Default)]
pub struct ExtendedBallistaLogicalCodec {}

/// Encodes and decodes physical nodes.
#[derive(Debug, Clone, Copy, Default)]
pub struct ExtendedBallistaPhysicalCodec {}

/// Why bytes are no schema.
#[derive(Debug)]
pub enum SchemaError {
    /// They cannot be read.
    Decode(String),
    /// The schema that they hold cannot be that of a plan.
    Invalid(String),
}

/// What is said of bytes that are no schema.
pub open spec fn schema_error(error: SchemaError) -> (ErrorKind, Seq<char>) {
    match error {
        SchemaError::Decode(text) => internal_error("failed to decode schema from IPC: "@, text@),
        SchemaError::Invalid(text) => internal_error("invalid schema: "@, text@),
    }
}

/// The error for bytes that are no schema.
fn no_schema(error: SchemaError) -> (e: PlanError)
    ensures
        e@ == schema_error(error),
{
    match error {
        SchemaError::Decode(text) => PlanError::internal(
            "failed to decode schema from IPC: ",
            text.as_str(),
        ),
        SchemaError::Invalid(text) => PlanError::internal("invalid schema: ", text.as_str()),
    }
}

/// What the wire form holds of a logical node: the fields, with zero for a missing number
/// of partitions.
pub open spec fn logical_fields<P, X>(node: LogicalNode<P, X>) -> NodeFields<X> {
    NodeFields {
        so_path: node.so_path,
        fn_name: node.fn_name,
        output_schema: *node.output_schema,
        distribute_by: node.distribute_by,
        num_partitions: match node.num_partitions {
            Some(n) => n,
            None => 0,
        },
        hash_partition: node.hash_partition,
    }
}

/// What the wire form holds of a physical node.
pub open spec fn physical_fields<P, Y>(node: ExecNode<P, Y>) -> NodeFields<Y> {
    NodeFields {
        so_path: node.so_path,
        fn_name: node.fn_name,
        output_schema: *node.output_schema,
        distribute_by: node.distribute_by,
        num_partitions: node.num_partitions,
        hash_partition: node.hash_partition,
    }
}

impl ExtendedBallistaLogicalCodec {
    /// The message for `node`, its expressions as `serialize` gives them; nothing where
    /// the node is none of this library.
    pub fn try_encode<P, X, S: Fn(&Expr<X>) -> Result<Vec<u8>, String>>(
        &self,
        node: Option<&MapPartition<P, X>>,
        serialize: S,
    ) -> (message: Result<Option<LMessage>, PlanError>)
        requires
            forall|expr: &Expr<X>| call_requires(serialize, (expr,)),
        ensures
            node is None ==> message == Ok::<Option<LMessage>, PlanError>(None),
            node matches Some(n) ==> match message {
                Ok(Some(message)) => message.extension matches Some(LExtension::MapPartition(f))
                    && fields_encode(serialize, logical_fields(n@), f),
                Ok(None) => false,
                Err(e) => fields_fail(
                    serialize,
                    logical_fields(n@),
                    "failed to serialize hash partition exprs: "@,
                    e@,
                ),
            },
    {
        let node = match node {
            Some(node) => node,
            None => return Ok(None),
        };
        let num_partitions: usize = match node.num_partitions {
            Some(n) => n,
            None => 0,
        };
        match encode_fields(
            &serialize,
            &node.so_path,
            &node.fn_name,
            &node.output_schema,
            &node.distribute_by,
            num_partitions,
            &node.hash_partition,
            "failed to serialize hash partition exprs: ",
        ) {
            Ok(fields) => Ok(
                Some(LMessage { extension: Some(LExtension::MapPartition(fields)) }),
            ),
            Err(e) => Err(e),
        }
    }
}

/// An expression that `fields` hold cannot be read, and `error` says so: those of the
/// hash partitioning come first.
pub open spec fn fields_undecodable<
    N,
    X,
    D: Fn(&Vec<u8>) -> Result<N, String>,
    G: Fn(&N) -> Result<Expr<X>, String>,
>(
    decode: D,
    parse: G,
    context: Seq<char>,
    fields: MapPartitionFields,
    error: (ErrorKind, Seq<char>),
) -> bool {
    ||| fields.hash_partition_count > 0 && list_undecodable::<N, X, D, G>(
        decode,
        parse,
        context,
        fields.hash_partition_exprs@,
        error,
    )
    ||| key_undecodable::<N, X, D, G>(decode, parse, fields.distribute_by_expr@, error) && exists|
        hash: Option<(Seq<Expr<X>>, usize)>,
    | #[trigger]
        hash_decodes(
            decode,
            parse,
            fields.hash_partition_exprs@,
            fields.hash_partition_count,
            hash,
        )
}

/// The distribution and the hash partitioning that `fields` hold.
fn decode_exprs<
    N,
    X,
    D: Fn(&Vec<u8>) -> Result<N, String>,
    G: Fn(&N) -> Result<Expr<X>, String>,
>(decode: &D, parse: &G, context: &str, fields: &MapPartitionFields) -> (decoded: Result<
    (Option<Expr<X>>, Option<(Vec<Expr<X>>, usize)>),
    PlanError,
>)
    requires
        forall|item: &Vec<u8>| call_requires(*decode, (item,)),
        forall|node: &N| call_requires(*parse, (node,)),
    ensures
        match decoded {
            Ok((key, hash)) => {
                &&& key_decodes(*decode, *parse, fields.distribute_by_expr@, key)
                &&& hash_decodes(
                    *decode,
                    *parse,
                    fields.hash_partition_exprs@,
                    fields.hash_partition_count,
                    hash_view(hash),
                )
            },
            Err(e) => fields_undecodable::<N, X, D, G>(*decode, *parse, context@, *fields, e@),
        },
{
    let hash = match decode_hash(
        decode,
        parse,
        context,
        &fields.hash_partition_exprs,
        fields.hash_partition_count,
    ) {
        Ok(hash) => hash,
        Err(e) => return Err(e),
    };
    match decode_key(decode, parse, &fields.distribute_by_expr) {
        Ok(key) => Ok((key, hash)),
        Err(e) => {
            assert(hash_decodes(
                *decode,
                *parse,
                fields.hash_partition_exprs@,
                fields.hash_partition_count,
                hash_view(hash),
            ));
            Err(e)
        },
    }
}

/// `node` is what `fields` hold, over `input`: zero stands for a missing number of
/// partitions.
pub open spec fn logical_decodes<
    P,
    X,
    N,
    R: Fn(&Vec<u8>) -> Result<Arc<Schema>, SchemaError>,
    D: Fn(&Vec<u8>) -> Result<N, String>,
    G: Fn(&N) -> Result<Expr<X>, String>,
>(
    read_schema: R,
    decode: D,
    parse: G,
    fields: MapPartitionFields,
    input: P,
    node: LogicalNode<P, X>,
) -> bool {
    &&& node.so_path == fields.so_path@
    &&& node.fn_name == fields.fn_name@
    &&& call_ensures(read_schema, (&fields.output_schema,), Ok(node.output_schema))
    &&& node.input == input
    &&& key_decodes(decode, parse, fields.distribute_by_expr@, node.distribute_by)
    &&& node.num_partitions == if fields.num_partitions > 0 {
        Some(fields.num_partitions as usize)
    } else {
        None
    }
    &&& hash_decodes(
        decode,
        parse,
        fields.hash_partition_exprs@,
        fields.hash_partition_count,
        node.hash_partition,
    )
}

/// `fields` hold no node, and `error` says why: the schema comes first, then the hash
/// partitioning, then the distribution.
pub open spec fn node_undecodable<
    X,
    N,
    R: Fn(&Vec<u8>) -> Result<Arc<Schema>, SchemaError>,
    D: Fn(&Vec<u8>) -> Result<N, String>,
    G: Fn(&N) -> Result<Expr<X>, String>,
>(
    read_schema: R,
    decode: D,
    parse: G,
    context: Seq<char>,
    fields: MapPartitionFields,
    error: (ErrorKind, Seq<char>),
) -> bool {
    ||| exists|reason: SchemaError| #[trigger]
        call_ensures(read_schema, (&fields.output_schema,), Err::<Arc<Schema>, _>(reason)) && error
            == schema_error(reason)
    ||| fields_undecodable::<N, X, D, G>(decode, parse, context, fields, error) && exists|
        schema: Arc<Schema>,
    | #[trigger]
        call_ensures(read_schema, (&fields.output_schema,), Ok::<_, SchemaError>(schema))
}

/// What a message on a logical plan carries, if anything.
pub open spec fn logical_extension(message: Option<LMessage>) -> Option<LExtension> {
    match message {
        Some(message) => message.extension,
        None => None,
    }
}

/// What a message on a physical plan carries, if anything.
pub open spec fn physical_extension(message: Option<PMessage>) -> Option<PExtension> {
    match message {
        Some(message) => message.extension,
        None => None,
    }
}

impl ExtendedBallistaLogicalCodec {
    /// The node that `message` holds, over the first of `inputs`; nothing where there is no
    /// message or it holds no node, which leaves the bytes to the codec inside.
    /// `read_schema` reads a schema; `decode` and `parse` read an expression.
    pub fn try_decode<
        P,
        X,
        N,
        R: Fn(&Vec<u8>) -> Result<Arc<Schema>, SchemaError>,
        D: Fn(&Vec<u8>) -> Result<N, String>,
        G: Fn(&N) -> Result<Expr<X>, String>,
    >(
        &self,
        message: Option<LMessage>,
        inputs: Vec<P>,
        read_schema: R,
        decode: D,
        parse: G,
    ) -> (node: Result<Option<MapPartition<P, X>>, PlanError>)
        requires
            forall|bytes: &Vec<u8>| call_requires(read_schema, (bytes,)),
            forall|item: &Vec<u8>| call_requires(decode, (item,)),
            forall|node: &N| call_requires(parse, (node,)),
        ensures
            match logical_extension(message) {
                None => node == Ok::<Option<MapPartition<P, X>>, PlanError>(None),
                Some(LExtension::MapPartition(fields)) => if inputs@.len() == 0 {
                    node matches Err(e) && e@ == (
                        ErrorKind::Plan,
                        "MapPartition expects single input"@,
                    )
                } else {
                    match node {
                        Ok(Some(node)) => logical_decodes(
                            read_schema,
                            decode,
                            parse,
                            fields,
                            inputs@[0],
                            node@,
                        ),
                        Ok(None) => false,
                        Err(e) => node_undecodable::<X, N, R, D, G>(
                            read_schema,
                            decode,
                            parse,
                            "failed to parse hash partition exprs: "@,
                            fields,
                            e@,
                        ),
                    }
                },
            },
    {
        let fields = match message {
            Some(LMessage { extension: Some(LExtension::MapPartition(fields)) }) => fields,
            _ => return Ok(None),
        };
        let mut inputs = inputs;
        if inputs.len() == 0 {
            return Err(PlanError::new(ErrorKind::Plan, "MapPartition expects single input"));
        }
        let input = inputs.remove(0);
        let output_schema = match read_schema(&fields.output_schema) {
            Ok(schema) => schema,
            Err(reason) => return Err(no_schema(reason)),
        };
        let (distribute_by, hash_partition) = match decode_exprs(
            &decode,
            &parse,
            "failed to parse hash partition exprs: ",
            &fields,
        ) {
            Ok(exprs) => exprs,
            Err(e) => return Err(e),
        };
        let num_partitions = if fields.num_partitions > 0 {
            Some(fields.num_partitions as usize)
        } else {
            None
        };
        Ok(
            Some(
                MapPartition::new(
                    fields.so_path,
                    fields.fn_name,
                    output_schema,
                    input,
                    distribute_by,
                    num_partitions,
                    hash_partition,
                ),
            ),
        )
    }
}

/// A node of a physical plan to be encoded.
#[derive(Debug)]
pub enum PhysicalNode<'a, P, Y> {
    /// A node of this library.
    MapPartition(&'a MapPartitionExec<P, Y>),
    /// Another node, as another codec encodes it.
    Other(Result<Vec<u8>, String>),
}

/// A node of a physical plan that was decoded.
#[derive(Debug)]
pub enum DecodedNode<P, Y> {
    /// A node of this library.
    MapPartition(MapPartitionExec<P, Y>),
    /// Bytes for the codec inside.
    Opaque(Vec<u8>),
    /// No message, or one that holds no node: the bytes are for the codec inside.
    Unknown,
}

/// `node` is what `fields` hold, over `input`.
pub open spec fn physical_decodes<
    P,
    Y,
    N,
    R: Fn(&Vec<u8>) -> Result<Arc<Schema>, SchemaError>,
    D: Fn(&Vec<u8>) -> Result<N, String>,
    G: Fn(&N) -> Result<Expr<Y>, String>,
>(
    read_schema: R,
    decode: D,
    parse: G,
    fields: MapPartitionFields,
    input: PlanInput<P, Y>,
    node: ExecNode<P, Y>,
) -> bool {
    &&& node.so_path == fields.so_path@
    &&& node.fn_name == fields.fn_name@
    &&& call_ensures(read_schema, (&fields.output_schema,), Ok(node.output_schema))
    &&& node.plan == input.plan
    &&& node.spread == input.partitioning@
    &&& key_decodes(decode, parse, fields.distribute_by_expr@, node.distribute_by)
    &&& node.num_partitions == fields.num_partitions as usize
    &&& hash_decodes(
        decode,
        parse,
        fields.hash_partition_exprs@,
        fields.hash_partition_count,
        node.hash_partition,
    )
}

impl ExtendedBallistaPhysicalCodec {
    /// The message for `node`: a node of this library with its expressions as `serialize`
    /// gives them, another one as it is.
    pub fn try_encode<P, Y, S: Fn(&Expr<Y>) -> Result<Vec<u8>, String>>(
        &self,
        node: PhysicalNode<'_, P, Y>,
        serialize: S,
    ) -> (message: Result<PMessage, PlanError>)
        requires
            forall|expr: &Expr<Y>| call_requires(serialize, (expr,)),
        ensures
            match node {
                PhysicalNode::MapPartition(exec) => match message {
                    Ok(message) => message.extension matches Some(PExtension::MapPartition(f))
                        && fields_encode(serialize, physical_fields(exec@), f),
                    Err(e) => fields_fail(
                        serialize,
                        physical_fields(exec@),
                        "failed to serialize physical hash partition exprs: "@,
                        e@,
                    ),
                },
                PhysicalNode::Other(Ok(bytes)) => message matches Ok(m) && m.extension == Some(
                    PExtension::Opaque(bytes),
                ),
                PhysicalNode::Other(Err(text)) => message matches Err(e) && e@ == (
                    ErrorKind::Internal,
                    text@,
                ),
            },
    {
        match node {
            PhysicalNode::MapPartition(exec) => match encode_fields(
                &serialize,
                &exec.so_path,
                &exec.fn_name,
                &exec.output_schema,
                &exec.distribute_by,
                exec.num_partitions,
                &exec.hash_partition,
                "failed to serialize physical hash partition exprs: ",
            ) {
                Ok(fields) => Ok(PMessage { extension: Some(PExtension::MapPartition(fields)) }),
                Err(e) => Err(e),
            },
            PhysicalNode::Other(Ok(bytes)) => Ok(
                PMessage { extension: Some(PExtension::Opaque(bytes)) },
            ),
            PhysicalNode::Other(Err(text)) => Err(
                PlanError { kind: ErrorKind::Internal, message: text },
            ),
        }
    }

    /// The node that `message` holds, over the first of `inputs`; the bytes of a node of
    /// another codec as they are; or that it holds none.
    pub fn try_decode<
        P,
        Y,
        N,
        R: Fn(&Vec<u8>) -> Result<Arc<Schema>, SchemaError>,
        D: Fn(&Vec<u8>) -> Result<N, String>,
        G: Fn(&N) -> Result<Expr<Y>, String>,
    >(
        &self,
        message: Option<PMessage>,
        inputs: Vec<PlanInput<P, Y>>,
        read_schema: R,
        decode: D,
        parse: G,
    ) -> (node: Result<DecodedNode<P, Y>, PlanError>)
        requires
            forall|bytes: &Vec<u8>| call_requires(read_schema, (bytes,)),
            forall|item: &Vec<u8>| call_requires(decode, (item,)),
            forall|node: &N| call_requires(parse, (node,)),
        ensures
            match physical_extension(message) {
                None => node == Ok::<DecodedNode<P, Y>, PlanError>(DecodedNode::Unknown),
                Some(PExtension::Opaque(bytes)) => node == Ok::<DecodedNode<P, Y>, PlanError>(
                    DecodedNode::Opaque(bytes),
                ),
                Some(PExtension::MapPartition(fields)) => if inputs@.len() == 0 {
                    node matches Err(e) && e@ == (
                        ErrorKind::Plan,
                        "MapPartition expects single input"@,
                    )
                } else {
                    match node {
                        Ok(DecodedNode::MapPartition(exec)) => exec.wf() && physical_decodes(
                            read_schema,
                            decode,
                            parse,
                            fields,
                            inputs@[0],
                            exec@,
                        ),
                        Ok(_) => false,
                        Err(e) => node_undecodable::<Y, N, R, D, G>(
                            read_schema,
                            decode,
                            parse,
                            "failed to parse physical hash partition exprs: "@,
                            fields,
                            e@,
                        ),
                    }
                },
            },
    {
        let fields = match message {
            Some(PMessage { extension: Some(PExtension::MapPartition(fields)) }) => fields,
            Some(PMessage { extension: Some(PExtension::Opaque(bytes)) }) => {
                return Ok(DecodedNode::Opaque(bytes));
            },
            _ => return Ok(DecodedNode::Unknown),
        };
        let mut inputs = inputs;
        if inputs.len() == 0 {
            return Err(PlanError::new(ErrorKind::Plan, "MapPartition expects single input"));
        }
        let input = inputs.remove(0);
        let output_schema = match read_schema(&fields.output_schema) {
            Ok(schema) => schema,
            Err(reason) => return Err(no_schema(reason)),
        };
        let (distribute_by, hash_partition) = match decode_exprs(
            &decode,
            &parse,
            "failed to parse physical hash partition exprs: ",
            &fields,
        ) {
            Ok(exprs) => exprs,
            Err(e) => return Err(e),
        };
        Ok(
            DecodedNode::MapPartition(
                MapPartitionExec::new(
                    fields.so_path,
                    fields.fn_name,
                    output_schema,
                    input,
                    distribute_by,
                    fields.num_partitions as usize,
                    hash_partition,
                ),
            ),
        )
    }
}

} // verus!
