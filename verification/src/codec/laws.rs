//! What messages hold of the nodes that they carry.
use std::sync::Arc;

use arrow::datatypes::Schema;
use vstd::prelude::*;

use crate::codec::extension::{
    fields_fail, key_fails, logical_fields, physical_fields, schema_error, DecodedNode,
    ExtendedBallistaLogicalCodec, ExtendedBallistaPhysicalCodec, NodeFields, PhysicalNode,
    SchemaError,
};
use crate::codec::framing::{
    contents, decode_length_delimited, decode_length_delimited_list, encode_length_delimited,
    encode_length_delimited_list, first_frame, framed, frames, lemma_frame_round_trip,
    lemma_frame_shrinks, lemma_frames_round_trip, lemma_varint_round_trip, varint_bytes,
    varint_from,
};
use crate::codec::messages::{LExtension, LMessage, MapPartitionFields, PExtension, PMessage};
use crate::codec::round_trip::{
    exprs_read_back, lemma_logical_round_trip, lemma_physical_round_trip, schema_read_back,
};
use crate::error::{internal_error, ErrorKind, PlanError};
use crate::expr::Expr;
use crate::logical::map_partition::MapPartition;
use crate::mapping::{mapped, unmapped};
use crate::physical::map_partition_exec::{MapPartitionExec, PlanInput};
use crate::schema::{schema_contents, schema_message};

verus! {

/// Lists of messages are put one after the other: the frames of two lists are those of the one
/// and those of the other.
pub proof fn lemma_framed_append(a: Seq<Seq<u8>>, b: Seq<Seq<u8>>)
    ensures
        framed(a + b) == framed(a) + framed(b),
        forall|item: Seq<u8>| #[trigger] framed(seq![item]) == varint_bytes(item.len()) + item,
    decreases a.len(),
{
    assert forall|item: Seq<u8>| #[trigger] framed(seq![item]) == varint_bytes(item.len()) + item by {
        assert(seq![item].skip(1) =~= Seq::<Seq<u8>>::empty());
        assert(framed(Seq::<Seq<u8>>::empty()) =~= Seq::<u8>::empty());
        assert(framed(seq![item]) =~= varint_bytes(item.len()) + item);
    }
    if a.len() == 0 {
        assert(a + b =~= b);
        assert(framed(a) + framed(b) =~= framed(b));
    } else {
        assert((a + b).skip(1) =~= a.skip(1) + b);
        lemma_framed_append(a.skip(1), b);
        assert(framed(a + b) =~= framed(a) + framed(b));
    }
}

/// Messages are read back from the start of a list, whatever follows them: what follows is read
/// as it is without them.
pub proof fn lemma_frames_append(items: Seq<Seq<u8>>, rest: Seq<u8>)
    requires
        forall|i: int| 0 <= i < items.len() ==> (#[trigger] items[i]).len() <= usize::MAX,
    ensures
        frames(framed(items) + rest).0 == items + frames(rest).0,
        frames(framed(items) + rest).1 == frames(rest).1,
    decreases items.len(),
{
    let bytes = framed(items) + rest;
    if items.len() == 0 {
        assert(bytes =~= rest);
        assert(items + frames(rest).0 =~= frames(rest).0);
    } else {
        let behind = framed(items.skip(1)) + rest;
        assert(bytes =~= varint_bytes(items[0].len()) + items[0] + behind);
        lemma_frame_round_trip(items[0], behind);
        lemma_frame_shrinks(bytes);
        assert forall|i: int| 0 <= i < items.skip(1).len() implies (#[trigger] items.skip(
            1,
        )[i]).len() <= usize::MAX by {
            assert(items.skip(1)[i] == items[i + 1]);
        }
        lemma_frames_append(items.skip(1), rest);
        assert(frames(bytes).0 =~= items + frames(rest).0);
    }
}

/// A list of messages that was encoded is decoded to the same messages, and so is a single
/// message; the message stands behind its length, as it is.
pub proof fn lemma_messages_back(
    items: Vec<Vec<u8>>,
    bytes: Vec<u8>,
    read: (Vec<Vec<u8>>, Option<PlanError>),
    item: Vec<u8>,
    frame: Vec<u8>,
    back: Result<Vec<u8>, String>,
)
    requires
        call_ensures(encode_length_delimited_list, (&items,), Ok::<Vec<u8>, PlanError>(bytes)),
        exists|slice: &[u8]|
            slice@ == bytes@ && #[trigger] call_ensures(
                decode_length_delimited_list,
                (slice,),
                read,
            ),
        call_ensures(encode_length_delimited, (&item,), Ok::<Vec<u8>, String>(frame)),
        call_ensures(decode_length_delimited, (&frame,), back),
    ensures
        read.1 is None,
        read.0@.len() == items@.len(),
        forall|i: int| 0 <= i < items@.len() ==> (#[trigger] read.0@[i])@ == items@[i]@,
        back matches Ok(b) && b@ == item@,
        frame@.len() > item@.len(),
        frame@.skip(frame@.len() - item@.len()) == item@,
{
    assert forall|i: int| 0 <= i < contents(items@).len() implies (#[trigger] contents(
        items@,
    )[i]).len() <= usize::MAX by {
        assert(items@[i].len() == items@[i]@.len());
    }
    lemma_frames_round_trip(contents(items@));
    assert(contents(read.0@).len() == read.0@.len());
    assert(contents(items@).len() == items@.len());
    assert forall|i: int| 0 <= i < items@.len() implies (#[trigger] read.0@[i])@ == items@[i]@ by {
        assert(contents(read.0@)[i] == read.0@[i]@);
        assert(contents(items@)[i] == items@[i]@);
    }
    assert(item.len() == item@.len());
    lemma_frame_round_trip(item@, Seq::empty());
    assert(varint_bytes(item@.len()) + item@ + Seq::<u8>::empty() =~= frame@);
    assert(first_frame(frame@) == Ok::<_, Seq<char>>((item@, Seq::<u8>::empty())));
    assert(frame@.skip(frame@.len() - item@.len()) =~= item@);
}

/// The message of a logical node holds its library path and its name, its schema as it is
/// encoded, its number of partitions, and that of its hash partitioning; zero stands for one
/// that is missing, and no bytes for an expression that is missing.
pub proof fn lemma_logical_message<P, X, S: Fn(&Expr<X>) -> Result<Vec<u8>, String>>(
    codec: ExtendedBallistaLogicalCodec,
    node: &MapPartition<P, X>,
    serialize: S,
    message: LMessage,
)
    requires
        call_ensures(
            ExtendedBallistaLogicalCodec::try_encode,
            (&codec, Some(node), serialize),
            Ok::<Option<LMessage>, PlanError>(Some(message)),
        ),
    ensures
        message.extension matches Some(LExtension::MapPartition(fields)) && {
            &&& fields.so_path@ == node.so_path@
            &&& fields.fn_name@ == node.fn_name@
            &&& schema_message(*node.output_schema) == Some(fields.output_schema@)
            &&& fields.num_partitions == match node.num_partitions {
                Some(n) => n as int,
                None => 0,
            }
            &&& fields.hash_partition_count == match node.hash_partition {
                Some((_, n)) => n as int,
                None => 0,
            }
            &&& node.distribute_by is None <==> fields.distribute_by_expr@.len() == 0
            &&& node.hash_partition is None ==> fields.hash_partition_exprs@.len() == 0
        },
{
    if let Some(expr) = node.distribute_by {
        assert forall|n: nat| (#[trigger] varint_bytes(n)).len() > 0 by {
            if n >= 128 {
                assert((seq![(n % 128 + 128) as u8] + varint_bytes(n / 128)).len() > 0);
            }
        }
    }
}

/// The message of a physical node holds the same of it.
pub proof fn lemma_physical_message<P, Y, S: Fn(&Expr<Y>) -> Result<Vec<u8>, String>>(
    codec: ExtendedBallistaPhysicalCodec,
    node: &MapPartitionExec<P, Y>,
    serialize: S,
    message: PMessage,
)
    requires
        call_ensures(
            ExtendedBallistaPhysicalCodec::try_encode,
            (&codec, PhysicalNode::MapPartition(node), serialize),
            Ok::<PMessage, PlanError>(message),
        ),
    ensures
        message.extension matches Some(PExtension::MapPartition(fields)) && {
            &&& fields.so_path@ == node.so_path@
            &&& fields.fn_name@ == node.fn_name@
            &&& schema_message(*node.output_schema) == Some(fields.output_schema@)
            &&& fields.num_partitions == node.num_partitions
            &&& fields.hash_partition_count == match node.hash_partition {
                Some((_, n)) => n as int,
                None => 0,
            }
            &&& node.distribute_by is None <==> fields.distribute_by_expr@.len() == 0
            &&& node.hash_partition is None ==> fields.hash_partition_exprs@.len() == 0
        },
{
    if let Some(expr) = node.distribute_by {
        assert forall|n: nat| (#[trigger] varint_bytes(n)).len() > 0 by {
            if n >= 128 {
                assert((seq![(n % 128 + 128) as u8] + varint_bytes(n / 128)).len() > 0);
            }
        }
    }
}

/// A logical node that is decoded holds what the message does, over the first input: zero and
/// no bytes are read as missing, and the first input is required.
pub proof fn lemma_logical_decoded<
    P,
    X,
    N,
    R: Fn(&Vec<u8>) -> Result<Arc<Schema>, SchemaError>,
    D: Fn(&Vec<u8>) -> Result<N, String>,
    G: Fn(&N) -> Result<Expr<X>, String>,
>(
    codec: ExtendedBallistaLogicalCodec,
    fields: MapPartitionFields,
    inputs: Vec<P>,
    read_schema: R,
    decode: D,
    parse: G,
    node: MapPartition<P, X>,
)
    requires
        call_ensures(
            ExtendedBallistaLogicalCodec::try_decode,
            (
                &codec,
                Some(LMessage { extension: Some(LExtension::MapPartition(fields)) }),
                inputs,
                read_schema,
                decode,
                parse,
            ),
            Ok::<Option<MapPartition<P, X>>, PlanError>(Some(node)),
        ),
    ensures
        inputs@.len() > 0 && node@.input == inputs@[0],
        node@.so_path == fields.so_path@,
        node@.fn_name == fields.fn_name@,
        call_ensures(
            read_schema,
            (&fields.output_schema,),
            Ok::<Arc<Schema>, SchemaError>(node@.output_schema),
        ),
        fields.num_partitions == 0 <==> node@.num_partitions is None,
        node@.num_partitions matches Some(n) ==> n == fields.num_partitions as usize,
        fields.hash_partition_count == 0 <==> node@.hash_partition is None,
        node@.hash_partition matches Some((_, n)) ==> n == fields.hash_partition_count as usize,
        fields.distribute_by_expr@.len() == 0 <==> node@.distribute_by is None,
{
}

/// A physical node that is decoded holds what the message does, over the first input.
pub proof fn lemma_physical_decoded<
    P,
    Y,
    N,
    R: Fn(&Vec<u8>) -> Result<Arc<Schema>, SchemaError>,
    D: Fn(&Vec<u8>) -> Result<N, String>,
    G: Fn(&N) -> Result<Expr<Y>, String>,
>(
    codec: ExtendedBallistaPhysicalCodec,
    fields: MapPartitionFields,
    inputs: Vec<PlanInput<P, Y>>,
    read_schema: R,
    decode: D,
    parse: G,
    node: MapPartitionExec<P, Y>,
)
    requires
        call_ensures(
            ExtendedBallistaPhysicalCodec::try_decode,
            (
                &codec,
                Some(PMessage { extension: Some(PExtension::MapPartition(fields)) }),
                inputs,
                read_schema,
                decode,
                parse,
            ),
            Ok::<DecodedNode<P, Y>, PlanError>(DecodedNode::MapPartition(node)),
        ),
    ensures
        inputs@.len() > 0 && node@.plan == inputs@[0].plan && node@.spread
            == inputs@[0].partitioning@,
        node@.so_path == fields.so_path@,
        node@.fn_name == fields.fn_name@,
        call_ensures(
            read_schema,
            (&fields.output_schema,),
            Ok::<Arc<Schema>, SchemaError>(node@.output_schema),
        ),
        node@.num_partitions == fields.num_partitions as usize,
        fields.hash_partition_count == 0 <==> node@.hash_partition is None,
        node@.hash_partition matches Some((_, n)) ==> n == fields.hash_partition_count as usize,
        fields.distribute_by_expr@.len() == 0 <==> node@.distribute_by is None,
{
}

/// A logical node that is encoded and decoded comes back as it was, over the input it is given,
/// with an equal schema, if schemas and expressions are read back; and decoding does not fail.
pub proof fn lemma_logical_back<
    P,
    X,
    N,
    S: Fn(&Expr<X>) -> Result<Vec<u8>, String>,
    R: Fn(&Vec<u8>) -> Result<Arc<Schema>, SchemaError>,
    D: Fn(&Vec<u8>) -> Result<N, String>,
    G: Fn(&N) -> Result<Expr<X>, String>,
>(
    codec: ExtendedBallistaLogicalCodec,
    node: &MapPartition<P, X>,
    serialize: S,
    message: LMessage,
    inputs: Vec<P>,
    read_schema: R,
    decode: D,
    parse: G,
    decoded: Result<Option<MapPartition<P, X>>, PlanError>,
)
    requires
        call_ensures(
            ExtendedBallistaLogicalCodec::try_encode,
            (&codec, Some(node), serialize),
            Ok::<Option<LMessage>, PlanError>(Some(message)),
        ),
        call_ensures(
            ExtendedBallistaLogicalCodec::try_decode,
            (&codec, Some(message), inputs, read_schema, decode, parse),
            decoded,
        ),
        exprs_read_back(serialize, decode, parse),
        schema_read_back(read_schema, *node@.output_schema),
        node@.num_partitions != Some(0usize),
        node@.hash_partition matches Some((_, n)) ==> n != 0,
        inputs@.len() > 0,
    ensures
        decoded matches Ok(Some(read)) && {
            &&& read@.so_path == node@.so_path
            &&& read@.fn_name == node@.fn_name
            &&& schema_contents(*read@.output_schema) == schema_contents(*node@.output_schema)
            &&& read@.input == inputs@[0]
            &&& read@.distribute_by == node@.distribute_by
            &&& read@.num_partitions == node@.num_partitions
            &&& read@.hash_partition == node@.hash_partition
        },
{
    if let Some(LExtension::MapPartition(fields)) = message.extension {
        lemma_logical_round_trip(serialize, read_schema, decode, parse, node@, fields);
    }
}

/// A physical node that is encoded and decoded comes back as it was, over the input it is given,
/// with an equal schema, if schemas and expressions are read back; and decoding does not fail.
pub proof fn lemma_physical_back<
    P,
    Y,
    N,
    S: Fn(&Expr<Y>) -> Result<Vec<u8>, String>,
    R: Fn(&Vec<u8>) -> Result<Arc<Schema>, SchemaError>,
    D: Fn(&Vec<u8>) -> Result<N, String>,
    G: Fn(&N) -> Result<Expr<Y>, String>,
>(
    codec: ExtendedBallistaPhysicalCodec,
    node: &MapPartitionExec<P, Y>,
    serialize: S,
    message: PMessage,
    inputs: Vec<PlanInput<P, Y>>,
    read_schema: R,
    decode: D,
    parse: G,
    decoded: Result<DecodedNode<P, Y>, PlanError>,
)
    requires
        call_ensures(
            ExtendedBallistaPhysicalCodec::try_encode,
            (&codec, PhysicalNode::MapPartition(node), serialize),
            Ok::<PMessage, PlanError>(message),
        ),
        call_ensures(
            ExtendedBallistaPhysicalCodec::try_decode,
            (&codec, Some(message), inputs, read_schema, decode, parse),
            decoded,
        ),
        exprs_read_back(serialize, decode, parse),
        schema_read_back(read_schema, *node@.output_schema),
        node@.hash_partition matches Some((_, n)) ==> n != 0,
        inputs@.len() > 0,
    ensures
        decoded matches Ok(DecodedNode::MapPartition(read)) && {
            &&& read@.so_path == node@.so_path
            &&& read@.fn_name == node@.fn_name
            &&& schema_contents(*read@.output_schema) == schema_contents(*node@.output_schema)
            &&& read@.plan == inputs@[0].plan
            &&& read@.spread == inputs@[0].partitioning@
            &&& read@.distribute_by == node@.distribute_by
            &&& read@.num_partitions == node@.num_partitions
            &&& read@.hash_partition == node@.hash_partition
        },
{
    if let Some(PExtension::MapPartition(fields)) = message.extension {
        lemma_physical_round_trip(serialize, read_schema, decode, parse, node@, fields);
    }
}

/// The bytes of a node of another codec come back as they were.
pub proof fn lemma_opaque_back<
    P,
    Y,
    N,
    S: Fn(&Expr<Y>) -> Result<Vec<u8>, String>,
    R: Fn(&Vec<u8>) -> Result<Arc<Schema>, SchemaError>,
    D: Fn(&Vec<u8>) -> Result<N, String>,
    G: Fn(&N) -> Result<Expr<Y>, String>,
>(
    codec: ExtendedBallistaPhysicalCodec,
    bytes: Vec<u8>,
    serialize: S,
    message: Result<PMessage, PlanError>,
    inputs: Vec<PlanInput<P, Y>>,
    read_schema: R,
    decode: D,
    parse: G,
    decoded: Result<DecodedNode<P, Y>, PlanError>,
)
    requires
        call_ensures(
            ExtendedBallistaPhysicalCodec::try_encode,
            (&codec, PhysicalNode::<P, Y>::Other(Ok(bytes)), serialize),
            message,
        ),
        call_ensures(
            ExtendedBallistaPhysicalCodec::try_decode,
            (&codec, Some(message->Ok_0), inputs, read_schema, decode, parse),
            decoded,
        ),
    ensures
        message is Ok,
        decoded == Ok::<DecodedNode<P, Y>, PlanError>(DecodedNode::Opaque(bytes)),
{
}

/// A logical node is encoded where its schema can be and every expression is serialised.
pub proof fn lemma_logical_encodes<P, X, S: Fn(&Expr<X>) -> Result<Vec<u8>, String>>(
    codec: ExtendedBallistaLogicalCodec,
    node: &MapPartition<P, X>,
    serialize: S,
    message: Result<Option<LMessage>, PlanError>,
)
    requires
        call_ensures(
            ExtendedBallistaLogicalCodec::try_encode,
            (&codec, Some(node), serialize),
            message,
        ),
        schema_message(*node.output_schema) is Some,
        forall|expr: Expr<X>, text: String|
            !#[trigger] call_ensures(serialize, (&expr,), Err::<Vec<u8>, String>(text)),
    ensures
        message matches Ok(m) && m is Some,
{
}

/// A physical node is encoded where its schema can be and every expression is serialised.
pub proof fn lemma_physical_encodes<P, Y, S: Fn(&Expr<Y>) -> Result<Vec<u8>, String>>(
    codec: ExtendedBallistaPhysicalCodec,
    node: &MapPartitionExec<P, Y>,
    serialize: S,
    message: Result<PMessage, PlanError>,
)
    requires
        call_ensures(
            ExtendedBallistaPhysicalCodec::try_encode,
            (&codec, PhysicalNode::MapPartition(node), serialize),
            message,
        ),
        schema_message(*node.output_schema) is Some,
        forall|expr: Expr<Y>, text: String|
            !#[trigger] call_ensures(serialize, (&expr,), Err::<Vec<u8>, String>(text)),
    ensures
        message is Ok,
{
}

/// What is said where a logical node cannot be encoded names what it was: the schema, an
/// expression of the hash partitioning or the distribution; and then says what was said of it.
pub proof fn lemma_logical_encode_errors<P, X, S: Fn(&Expr<X>) -> Result<Vec<u8>, String>>(
    codec: ExtendedBallistaLogicalCodec,
    node: &MapPartition<P, X>,
    serialize: S,
    error: PlanError,
)
    requires
        call_ensures(
            ExtendedBallistaLogicalCodec::try_encode,
            (&codec, Some(node), serialize),
            Err::<Option<LMessage>, PlanError>(error),
        ),
    ensures
        error.kind == ErrorKind::Internal,
        schema_message(*node.output_schema) is None || exists|expr: Expr<X>, text: String|
            {
                &&& #[trigger] call_ensures(
                    serialize,
                    (&expr,),
                    Err::<Vec<u8>, String>(text),
                )
                &&& {
                    ||| node@.distribute_by == Some(expr) && error.message@
                        == "failed to serialize distribute_by expr: "@ + text@
                    ||| (node@.hash_partition matches Some((by, _)) && by.contains(expr))
                        && error.message@ == "failed to serialize hash partition exprs: "@ + text@
                }
            },
{
    lemma_fields_fail(
        serialize,
        logical_fields(node@),
        "failed to serialize hash partition exprs: "@,
        error@,
    );
}

/// What is said where a physical node cannot be encoded names what it was: the schema, an
/// expression of the hash partitioning or the distribution; and then says what was said of it.
pub proof fn lemma_physical_encode_errors<P, Y, S: Fn(&Expr<Y>) -> Result<Vec<u8>, String>>(
    codec: ExtendedBallistaPhysicalCodec,
    node: &MapPartitionExec<P, Y>,
    serialize: S,
    error: PlanError,
)
    requires
        call_ensures(
            ExtendedBallistaPhysicalCodec::try_encode,
            (&codec, PhysicalNode::MapPartition(node), serialize),
            Err::<PMessage, PlanError>(error),
        ),
    ensures
        error.kind == ErrorKind::Internal,
        schema_message(*node.output_schema) is None || exists|expr: Expr<Y>, text: String|
            {
                &&& #[trigger] call_ensures(
                    serialize,
                    (&expr,),
                    Err::<Vec<u8>, String>(text),
                )
                &&& {
                    ||| node@.distribute_by == Some(expr) && error.message@
                        == "failed to serialize distribute_by expr: "@ + text@
                    ||| (node@.hash_partition matches Some((by, _)) && by.contains(expr))
                        && error.message@ == "failed to serialize physical hash partition exprs: "@
                        + text@
                }
            },
{
    lemma_fields_fail(
        serialize,
        physical_fields(node@),
        "failed to serialize physical hash partition exprs: "@,
        error@,
    );
}

/// Where a node cannot be encoded for an expression, that expression cannot be serialised.
proof fn lemma_fields_fail<X, S: Fn(&Expr<X>) -> Result<Vec<u8>, String>>(
    serialize: S,
    node: NodeFields<X>,
    context: Seq<char>,
    error: (ErrorKind, Seq<char>),
)
    requires
        fields_fail(serialize, node, context, error),
    ensures
        error.0 == ErrorKind::Internal,
        schema_message(node.output_schema) is None || exists|expr: Expr<X>, text: String|
            {
                &&& #[trigger] call_ensures(
                    serialize,
                    (&expr,),
                    Err::<Vec<u8>, String>(text),
                )
                &&& {
                    ||| node.distribute_by == Some(expr) && error.1
                        == "failed to serialize distribute_by expr: "@ + text@
                    ||| (node.hash_partition matches Some((by, _)) && by.contains(expr)) && error.1
                        == context + text@
                }
            },
{
    if schema_message(node.output_schema) is Some {
        if key_fails(serialize, node.distribute_by, error) {
            let expr = node.distribute_by->0;
            let text = choose|text: String| #[trigger]
                call_ensures(serialize, (&expr,), Err::<Vec<u8>, String>(text)) && error
                    == internal_error("failed to serialize distribute_by expr: "@, text@);
            assert(call_ensures(serialize, (&expr,), Err::<Vec<u8>, String>(text)));
        } else {
            let exprs = (node.hash_partition->0).0;
            let text = choose|text: String| #[trigger]
                unmapped::<Expr<X>, Vec<u8>, String, S>(serialize, exprs, text) && error
                    == internal_error(context, text@);
            let (i, before) = choose|i: int, before: Seq<Vec<u8>>|
                {
                    &&& 0 <= i < exprs.len()
                    &&& #[trigger] mapped(serialize, exprs.take(i), before)
                    &&& call_ensures(serialize, (&exprs[i],), Err::<Vec<u8>, String>(text))
                };
            let expr = exprs[i];
            assert(call_ensures(serialize, (&expr,), Err::<Vec<u8>, String>(text)));
            assert(exprs.contains(expr));
        }
    }
}

/// What is said of a message whose schema cannot be read names that, and then says what was said
/// of it; where the schema can be read, it is an expression that cannot be.
pub proof fn lemma_schema_unread<
    P,
    X,
    N,
    R: Fn(&Vec<u8>) -> Result<Arc<Schema>, SchemaError>,
    D: Fn(&Vec<u8>) -> Result<N, String>,
    G: Fn(&N) -> Result<Expr<X>, String>,
>(
    codec: ExtendedBallistaLogicalCodec,
    fields: MapPartitionFields,
    inputs: Vec<P>,
    read_schema: R,
    decode: D,
    parse: G,
    error: PlanError,
)
    requires
        call_ensures(
            ExtendedBallistaLogicalCodec::try_decode,
            (
                &codec,
                Some(LMessage { extension: Some(LExtension::MapPartition(fields)) }),
                inputs,
                read_schema,
                decode,
                parse,
            ),
            Err::<Option<MapPartition<P, X>>, PlanError>(error),
        ),
        inputs@.len() > 0,
        forall|schema: Arc<Schema>|
            !#[trigger] call_ensures(
                read_schema,
                (&fields.output_schema,),
                Ok::<Arc<Schema>, SchemaError>(schema),
            ),
    ensures
        error.kind == ErrorKind::Internal,
        exists|reason: SchemaError|
            {
                &&& #[trigger] call_ensures(
                    read_schema,
                    (&fields.output_schema,),
                    Err::<Arc<Schema>, SchemaError>(reason),
                )
                &&& error.message@ == match reason {
                    SchemaError::Decode(text) => "failed to decode schema from IPC: "@ + text@,
                    SchemaError::Invalid(text) => "invalid schema: "@ + text@,
                }
            },
{
    let reason = choose|reason: SchemaError| #[trigger]
        call_ensures(
            read_schema,
            (&fields.output_schema,),
            Err::<Arc<Schema>, SchemaError>(reason),
        ) && error@ == schema_error(reason);
    assert(call_ensures(
        read_schema,
        (&fields.output_schema,),
        Err::<Arc<Schema>, SchemaError>(reason),
    ));
}

/// No part of a number is read as one.
proof fn lemma_varint_cut(n: nat, k: int, depth: nat)
    requires
        0 <= k < varint_bytes(n).len(),
    ensures
        varint_from(varint_bytes(n).take(k), depth) is None,
    decreases n,
{
    let cut = varint_bytes(n).take(k);
    if n >= 128 && k > 0 {
        assert(varint_bytes(n)[0] == (n % 128 + 128) as u8);
        assert(cut[0] >= 128);
        assert(cut.skip(1) =~= varint_bytes(n / 128).take(k - 1));
        lemma_varint_cut(n / 128, k - 1, depth + 1);
    }
}

/// A message that is cut off is refused.
pub proof fn lemma_cut_refused(
    item: Vec<u8>,
    frame: Vec<u8>,
    cut: Vec<u8>,
    read: Result<Vec<u8>, String>,
)
    requires
        call_ensures(encode_length_delimited, (&item,), Ok::<Vec<u8>, String>(frame)),
        cut@.len() < frame@.len(),
        cut@ == frame@.take(cut@.len() as int),
        call_ensures(decode_length_delimited, (&cut,), read),
    ensures
        read is Err,
{
    let head = varint_bytes(item@.len());
    let k = cut@.len() as int;
    assert(item.len() == item@.len());
    if k < head.len() {
        assert(cut@ =~= head.take(k));
        lemma_varint_cut(item@.len(), k, 0);
    } else {
        let rest = item@.take(k - head.len());
        assert(cut@ =~= head + rest);
        lemma_varint_round_trip(item@.len(), rest);
        assert(cut@.skip(head.len() as int) =~= rest);
    }
}

} // verus!
