//! What is encoded of a node can be decoded, and gives the node back.
use std::sync::Arc;

use arrow::datatypes::Schema;
use vstd::prelude::*;

use crate::codec::extension::{
    fields_encode, key_decodes, key_encodes, key_undecodable, list_decodes, list_encodes,
    list_undecodable, logical_decodes, logical_fields, node_undecodable, physical_decodes,
    physical_fields, step_fails, SchemaError,
};
use crate::codec::framing::{
    contents, framed, frames, lemma_frame_round_trip, lemma_frames_round_trip, varint_bytes,
};
use crate::codec::messages::MapPartitionFields;
use crate::error::ErrorKind;
use crate::expr::Expr;
use crate::logical::map_partition::LogicalNode;
use crate::mapping::{mapped, unmapped};
use crate::physical::map_partition_exec::{ExecNode, PlanInput};
use crate::batch::is_schema_stream;
use crate::schema::{
    can_read_schema, decode_schema, encoded_schema, schema_contents, stream_schema,
};
use crate::types::{all_kept, schema_types};

verus! {

/// Reading what `serialize` wrote of an expression gives that expression back.
pub open spec fn exprs_read_back<
    X,
    N,
    S: Fn(&Expr<X>) -> Result<Vec<u8>, String>,
    D: Fn(&Vec<u8>) -> Result<N, String>,
    G: Fn(&N) -> Result<Expr<X>, String>,
>(serialize: S, decode: D, parse: G) -> bool {
    &&& forall|expr: Expr<X>, written: Vec<u8>, bytes: Vec<u8>, text: String|
        #![trigger call_ensures(serialize, (&expr,), Ok(written)), call_ensures(decode, (&bytes,), Err::<N, String>(text))]
        call_ensures(serialize, (&expr,), Ok(written)) && bytes@ == written@ ==> !call_ensures(
            decode,
            (&bytes,),
            Err::<N, String>(text),
        )
    &&& forall|
        expr: Expr<X>,
        written: Vec<u8>,
        bytes: Vec<u8>,
        node: N,
        parsed: Result<Expr<X>, String>,
    |
        #![trigger call_ensures(serialize, (&expr,), Ok(written)), call_ensures(decode, (&bytes,), Ok(node)), call_ensures(parse, (&node,), parsed)]
        call_ensures(serialize, (&expr,), Ok(written)) && bytes@ == written@ && call_ensures(
            decode,
            (&bytes,),
            Ok(node),
        ) && call_ensures(parse, (&node,), parsed) ==> parsed == Ok::<Expr<X>, String>(expr)
}

/// Byte vectors fit into memory.
proof fn lemma_contents_fit(nodes: Seq<Vec<u8>>)
    ensures
        forall|i: int|
            0 <= i < contents(nodes).len() ==> (#[trigger] contents(nodes)[i]).len() <= usize::MAX,
{
    assert forall|i: int| 0 <= i < contents(nodes).len() implies (#[trigger] contents(
        nodes,
    )[i]).len() <= usize::MAX by {
        assert(nodes[i].len() == nodes[i]@.len());
    }
}

/// Expressions that were serialised and framed are read back.
proof fn lemma_list_round_trip<
    X,
    N,
    S: Fn(&Expr<X>) -> Result<Vec<u8>, String>,
    D: Fn(&Vec<u8>) -> Result<N, String>,
    G: Fn(&N) -> Result<Expr<X>, String>,
>(serialize: S, decode: D, parse: G, exprs: Seq<Expr<X>>, bytes: Seq<u8>)
    requires
        exprs_read_back(serialize, decode, parse),
        list_encodes(serialize, exprs, bytes),
    ensures
        forall|read: Seq<Expr<X>>| #[trigger]
            list_decodes(decode, parse, bytes, read) ==> read == exprs,
        forall|context: Seq<char>, error: (ErrorKind, Seq<char>)|
            !#[trigger] list_undecodable::<N, X, D, G>(decode, parse, context, bytes, error),
{
    let nodes = choose|nodes: Seq<Vec<u8>>| #[trigger]
        mapped(serialize, exprs, nodes) && bytes == framed(contents(nodes));
    lemma_contents_fit(nodes);
    lemma_frames_round_trip(contents(nodes));
    assert forall|read: Seq<Expr<X>>| #[trigger]
        list_decodes(decode, parse, bytes, read) implies read == exprs by {
        let (items, decoded) = choose|items: Seq<Vec<u8>>, decoded: Seq<N>|
            {
                &&& contents(items) == frames(bytes).0
                &&& #[trigger] mapped(decode, items, decoded)
                &&& #[trigger] mapped(parse, decoded, read)
            };
        assert(contents(items).len() == items.len());
        assert(contents(nodes).len() == nodes.len());
        assert forall|i: int| 0 <= i < exprs.len() implies read[i] == exprs[i] by {
            assert(contents(items)[i] == items[i]@);
            assert(contents(nodes)[i] == nodes[i]@);
            assert(call_ensures(serialize, (&exprs[i],), Ok(nodes[i])));
            assert(call_ensures(decode, (&items[i],), Ok(decoded[i])));
            assert(call_ensures(parse, (&decoded[i],), Ok(read[i])));
        }
        assert(read =~= exprs);
    }
    assert forall|context: Seq<char>, error: (ErrorKind, Seq<char>)|
        !#[trigger] list_undecodable::<N, X, D, G>(decode, parse, context, bytes, error) by {
        lemma_list_readable(serialize, decode, parse, exprs, nodes, context, bytes, error);
    }
}

/// Expressions that were serialised and framed are not beyond reading.
proof fn lemma_list_readable<
    X,
    N,
    S: Fn(&Expr<X>) -> Result<Vec<u8>, String>,
    D: Fn(&Vec<u8>) -> Result<N, String>,
    G: Fn(&N) -> Result<Expr<X>, String>,
>(
    serialize: S,
    decode: D,
    parse: G,
    exprs: Seq<Expr<X>>,
    nodes: Seq<Vec<u8>>,
    context: Seq<char>,
    bytes: Seq<u8>,
    error: (ErrorKind, Seq<char>),
)
    requires
        exprs_read_back(serialize, decode, parse),
        mapped(serialize, exprs, nodes),
        frames(bytes) == (contents(nodes), None::<Seq<char>>),
    ensures
        !list_undecodable::<N, X, D, G>(decode, parse, context, bytes, error),
{
    assert forall|items: Seq<Vec<u8>>| #[trigger] contents(items) == contents(nodes) implies {
        &&& !step_fails::<Vec<u8>, N, D>(decode, items, "failed to decode expr list: "@, error)
        &&& forall|decoded: Seq<N>| #[trigger]
            mapped(decode, items, decoded) ==> !step_fails::<N, Expr<X>, G>(
                parse,
                decoded,
                context,
                error,
            )
    } by {
        assert(contents(items).len() == items.len());
        assert(contents(nodes).len() == nodes.len());
        assert forall|i: int| 0 <= i < items.len() implies (#[trigger] items[i])@ == nodes[i]@ by {
            assert(contents(items)[i] == items[i]@);
            assert(contents(nodes)[i] == nodes[i]@);
        }
        assert forall|text: String|
            !#[trigger] unmapped::<Vec<u8>, N, String, D>(decode, items, text) by {
            assert forall|i: int| 0 <= i < items.len() implies !call_ensures(
                decode,
                (&#[trigger] items[i],),
                Err::<N, String>(text),
            ) by {
                assert(call_ensures(serialize, (&exprs[i],), Ok(nodes[i])));
            }
        }
        assert forall|decoded: Seq<N>| #[trigger]
            mapped(decode, items, decoded) implies !step_fails::<N, Expr<X>, G>(
            parse,
            decoded,
            context,
            error,
        ) by {
            assert forall|text: String|
                !#[trigger] unmapped::<N, Expr<X>, String, G>(parse, decoded, text) by {
                assert forall|i: int| 0 <= i < decoded.len() implies !call_ensures(
                    parse,
                    (&#[trigger] decoded[i],),
                    Err::<Expr<X>, String>(text),
                ) by {
                    assert(call_ensures(serialize, (&exprs[i],), Ok(nodes[i])));
                    assert(call_ensures(decode, (&items[i],), Ok(decoded[i])));
                }
            }
        }
    }
}

/// A distribution that was serialised and framed is read back.
proof fn lemma_key_round_trip<
    X,
    N,
    S: Fn(&Expr<X>) -> Result<Vec<u8>, String>,
    D: Fn(&Vec<u8>) -> Result<N, String>,
    G: Fn(&N) -> Result<Expr<X>, String>,
>(serialize: S, decode: D, parse: G, key: Option<Expr<X>>, bytes: Seq<u8>)
    requires
        exprs_read_back(serialize, decode, parse),
        key_encodes(serialize, key, bytes),
    ensures
        forall|read: Option<Expr<X>>| #[trigger]
            key_decodes(decode, parse, bytes, read) ==> read == key,
        forall|error: (ErrorKind, Seq<char>)|
            !#[trigger] key_undecodable::<N, X, D, G>(decode, parse, bytes, error),
{
    if let Some(expr) = key {
        let written = choose|written: Vec<u8>| #[trigger]
            call_ensures(serialize, (&expr,), Ok(written)) && bytes == varint_bytes(written@.len())
                + written@;
        assert(written.len() == written@.len());
        lemma_frame_round_trip(written@, Seq::empty());
        assert(varint_bytes(written@.len()) + written@ + Seq::<u8>::empty() =~= bytes);
        assert(bytes.len() > 0);
    }
}

/// Reading the encoding of `schema` gives an equal schema.
pub open spec fn schema_read_back<R: Fn(&Vec<u8>) -> Result<Arc<Schema>, SchemaError>>(
    read_schema: R,
    schema: Schema,
) -> bool {
    forall|bytes: Vec<u8>, read: Result<Arc<Schema>, SchemaError>|
        bytes@ == encoded_schema(schema) && #[trigger] call_ensures(read_schema, (&bytes,), read)
            ==> (read matches Ok(found) && schema_contents(*found) == schema_contents(schema))
}

/// `read_schema` reads the stream of a schema as `decode_schema` does.
pub open spec fn reads_as_decoded<R: Fn(&Vec<u8>) -> Result<Arc<Schema>, SchemaError>>(
    read_schema: R,
) -> bool {
    forall|bytes: Vec<u8>, read: Result<Arc<Schema>, SchemaError>|
        is_schema_stream(bytes@) && #[trigger] call_ensures(read_schema, (&bytes,), read)
            ==> exists|decoded: Result<Arc<Schema>, String>|
            {
                &&& #[trigger] call_ensures(decode_schema, (&bytes,), decoded)
                &&& match (read, decoded) {
                    (Ok(a), Ok(b)) => schema_contents(*a) == schema_contents(*b),
                    (Err(_), Err(_)) => true,
                    _ => false,
                }
            }
}

/// What reads streams as `decode_schema` does reads a schema back, where its message is
/// not too large, its types can be read back and are kept, and its stream is within the reach
/// of the reader.
pub proof fn lemma_schema_reads_back<R: Fn(&Vec<u8>) -> Result<Arc<Schema>, SchemaError>>(
    read_schema: R,
    schema: Schema,
)
    requires
        reads_as_decoded(read_schema),
        can_read_schema(schema),
        all_kept(schema_types(schema)),
        stream_schema(encoded_schema(schema)) is Some,
    ensures
        schema_read_back(read_schema, schema),
{
    assert forall|bytes: Vec<u8>, read: Result<Arc<Schema>, SchemaError>|
        bytes@ == encoded_schema(schema) && #[trigger] call_ensures(
            read_schema,
            (&bytes,),
            read,
        ) implies (read matches Ok(found) && schema_contents(*found) == schema_contents(schema)) by {
        assert(is_schema_stream(bytes@));
        let decoded = choose|decoded: Result<Arc<Schema>, String>|
            {
                &&& #[trigger] call_ensures(decode_schema, (&bytes,), decoded)
                &&& match (read, decoded) {
                    (Ok(a), Ok(b)) => schema_contents(*a) == schema_contents(*b),
                    (Err(_), Err(_)) => true,
                    _ => false,
                }
            };
        assert(call_ensures(decode_schema, (&bytes,), decoded));
    }
}

/// Decoding what was encoded of a logical node does not fail, and gives the node back, if
/// schemas and expressions are read back. A number of partitions that is zero is read as
/// missing, and so is a hash partitioning into none.
pub proof fn lemma_logical_round_trip<
    P,
    X,
    N,
    S: Fn(&Expr<X>) -> Result<Vec<u8>, String>,
    R: Fn(&Vec<u8>) -> Result<Arc<Schema>, SchemaError>,
    D: Fn(&Vec<u8>) -> Result<N, String>,
    G: Fn(&N) -> Result<Expr<X>, String>,
>(
    serialize: S,
    read_schema: R,
    decode: D,
    parse: G,
    node: LogicalNode<P, X>,
    fields: MapPartitionFields,
)
    requires
        fields_encode(serialize, logical_fields(node), fields),
        exprs_read_back(serialize, decode, parse),
        schema_read_back(read_schema, *node.output_schema),
        node.num_partitions != Some(0usize),
        node.hash_partition matches Some((_, n)) ==> n != 0,
    ensures
        forall|input: P, read: LogicalNode<P, X>| #[trigger]
            logical_decodes(read_schema, decode, parse, fields, input, read) ==> {
                &&& read == LogicalNode { input, output_schema: read.output_schema, ..node }
                &&& schema_contents(*read.output_schema) == schema_contents(*node.output_schema)
            },
        forall|context: Seq<char>, error: (ErrorKind, Seq<char>)|
            !#[trigger] node_undecodable::<X, N, R, D, G>(
                read_schema,
                decode,
                parse,
                context,
                fields,
                error,
            ),
{
    if let Some((exprs, _)) = node.hash_partition {
        lemma_list_round_trip(serialize, decode, parse, exprs, fields.hash_partition_exprs@);
    }
    lemma_key_round_trip(
        serialize,
        decode,
        parse,
        node.distribute_by,
        fields.distribute_by_expr@,
    );
}

/// Decoding what was encoded of a physical node does not fail, and gives the node back
/// over the input it is given, if schemas and expressions are read back. A hash
/// partitioning into no partitions is read as missing.
pub proof fn lemma_physical_round_trip<
    P,
    Y,
    N,
    S: Fn(&Expr<Y>) -> Result<Vec<u8>, String>,
    R: Fn(&Vec<u8>) -> Result<Arc<Schema>, SchemaError>,
    D: Fn(&Vec<u8>) -> Result<N, String>,
    G: Fn(&N) -> Result<Expr<Y>, String>,
>(
    serialize: S,
    read_schema: R,
    decode: D,
    parse: G,
    node: ExecNode<P, Y>,
    fields: MapPartitionFields,
)
    requires
        fields_encode(serialize, physical_fields(node), fields),
        exprs_read_back(serialize, decode, parse),
        schema_read_back(read_schema, *node.output_schema),
        node.hash_partition matches Some((_, n)) ==> n != 0,
    ensures
        forall|input: PlanInput<P, Y>, read: ExecNode<P, Y>| #[trigger]
            physical_decodes(read_schema, decode, parse, fields, input, read) ==> {
                &&& read == ExecNode {
                    plan: input.plan,
                    spread: input.partitioning@,
                    output_schema: read.output_schema,
                    ..node
                }
                &&& schema_contents(*read.output_schema) == schema_contents(*node.output_schema)
            },
        forall|context: Seq<char>, error: (ErrorKind, Seq<char>)|
            !#[trigger] node_undecodable::<Y, N, R, D, G>(
                read_schema,
                decode,
                parse,
                context,
                fields,
                error,
            ),
{
    if let Some((exprs, _)) = node.hash_partition {
        lemma_list_round_trip(serialize, decode, parse, exprs, fields.hash_partition_exprs@);
    }
    lemma_key_round_trip(
        serialize,
        decode,
        parse,
        node.distribute_by,
        fields.distribute_by_expr@,
    );
}

} // verus!
