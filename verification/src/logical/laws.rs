//! When logical nodes are equal, how they are ordered, and how they are rebuilt.
use std::cmp::Ordering;

use vstd::prelude::*;
use vstd::std_specs::cmp::{PartialEqSpec, PartialOrdSpec};

use crate::error::PlanError;
use crate::expr::Expr;
use crate::keys::is_key;
use crate::logical::map_partition::{
    debug_texts, hash_values, rebuilt, schema_bytes, HashValue, LogicalNode, MapPartition,
};
use crate::order::{
    bytes_order, lemma_bytes_order_total, lemma_text_order_total, lemma_texts_order_total,
    text_order, texts_order, Order,
};
use crate::schema::schema_contents;

verus! {

/// Two nodes are equal exactly where all that they hold is equal.
pub proof fn lemma_equality<P: PartialEq, X: PartialEq>(
    a: MapPartition<P, X>,
    b: MapPartition<P, X>,
)
    ensures
        a.eq_spec(&b) <==> {
            &&& a.so_path@ == b.so_path@
            &&& a.fn_name@ == b.fn_name@
            &&& schema_contents(*a.output_schema) == schema_contents(*b.output_schema)
            &&& a.input.eq_spec(&b.input)
            &&& a.num_partitions == b.num_partitions
            &&& match (a.distribute_by, b.distribute_by) {
                (Some(x), Some(y)) => (*x.value).eq_spec(&*y.value),
                (None, None) => true,
                _ => false,
            }
            &&& match (a.hash_partition, b.hash_partition) {
                (Some((xs, m)), Some((ys, n))) => m == n && xs@.len() == ys@.len() && forall|
                    i: int,
                |
                    0 <= i < xs@.len() ==> (*(#[trigger] xs@[i]).value).eq_spec(&*ys@[i].value),
                (None, None) => true,
                _ => false,
            }
        },
{
    if let (Some((xs, m)), Some((ys, n))) = (a.hash_partition, b.hash_partition) {
        assert(a@.hash_partition == Some((xs@, m)));
        assert(b@.hash_partition == Some((ys@, n)));
    }
}

/// A node is equal to itself, and equality goes both ways, where that holds of inputs and of
/// expressions.
pub proof fn lemma_equality_symmetric<P: PartialEq, X: PartialEq>(
    a: MapPartition<P, X>,
    b: MapPartition<P, X>,
)
    requires
        is_key::<P>(),
        is_key::<X>(),
    ensures
        a.eq_spec(&a),
        a.eq_spec(&b) ==> b.eq_spec(&a),
{
    lemma_equality(a, a);
    lemma_equality(a, b);
    lemma_equality(b, a);
}

/// The library path decides the comparison of two nodes where it differs; next the name, the
/// encoded schema, the input, the hash partitioning, the distribution and the number of partitions, each where all
/// before it are the same.
pub proof fn lemma_comparison_decided<P: PartialOrd, X: PartialEq>(
    a: MapPartition<P, X>,
    b: MapPartition<P, X>,
)
    ensures
        text_order(a.so_path@, b.so_path@) == Order::Less ==> a.partial_cmp_spec(&b) == Some(
            Ordering::Less,
        ),
        a.so_path@ == b.so_path@ && text_order(a.fn_name@, b.fn_name@) == Order::Less
            ==> a.partial_cmp_spec(&b) == Some(Ordering::Less),
        a.so_path@ == b.so_path@ && a.fn_name@ == b.fn_name@ ==> match (
            schema_bytes(a@),
            schema_bytes(b@),
        ) {
            (None, Some(_)) => a.partial_cmp_spec(&b) == Some(Ordering::Less),
            (Some(_), None) => a.partial_cmp_spec(&b) == Some(Ordering::Greater),
            (Some(x), Some(y)) => bytes_order(x, y) == Order::Less ==> a.partial_cmp_spec(&b)
                == Some(Ordering::Less),
            (None, None) => true,
        },
        a.so_path@ == b.so_path@ && a.fn_name@ == b.fn_name@ && schema_bytes(a@) == schema_bytes(b@)
            ==> {
            &&& a.input.partial_cmp_spec(&b.input) != Some(Ordering::Equal) ==> a.partial_cmp_spec(
                &b,
            ) == a.input.partial_cmp_spec(&b.input)
            &&& a.input.partial_cmp_spec(&b.input) == Some(Ordering::Equal) ==> {
                &&& match (a.hash_partition, b.hash_partition) {
                    (None, Some(_)) => a.partial_cmp_spec(&b) == Some(Ordering::Less),
                    (Some(_), None) => a.partial_cmp_spec(&b) == Some(Ordering::Greater),
                    (Some((xs, m)), Some((ys, n))) => {
                        &&& texts_order(debug_texts(xs@), debug_texts(ys@)) == Order::Less
                            ==> a.partial_cmp_spec(&b) == Some(Ordering::Less)
                        &&& debug_texts(xs@) == debug_texts(ys@) && m < n ==> a.partial_cmp_spec(&b)
                            == Some(Ordering::Less)
                    },
                    (None, None) => {
                        &&& match (a.distribute_by, b.distribute_by) {
                            (None, Some(_)) => a.partial_cmp_spec(&b) == Some(Ordering::Less),
                            (Some(_), None) => a.partial_cmp_spec(&b) == Some(Ordering::Greater),
                            (Some(x), Some(y)) => text_order(x.debug@, y.debug@) == Order::Less
                                ==> a.partial_cmp_spec(&b) == Some(Ordering::Less),
                            (None, None) => match (a.num_partitions, b.num_partitions) {
                                (None, Some(_)) => a.partial_cmp_spec(&b) == Some(Ordering::Less),
                                (Some(m), Some(n)) => {
                                    &&& m < n ==> a.partial_cmp_spec(&b) == Some(Ordering::Less)
                                    &&& m == n ==> a.partial_cmp_spec(&b) == Some(Ordering::Equal)
                                },
                                (None, None) => a.partial_cmp_spec(&b) == Some(Ordering::Equal),
                                (Some(_), None) => a.partial_cmp_spec(&b) == Some(
                                    Ordering::Greater,
                                ),
                            },
                        }
                    },
                }
            }
        },
{
    lemma_text_order_total(a.so_path@, b.so_path@);
    lemma_text_order_total(a.fn_name@, b.fn_name@);
    if let (Some(x), Some(y)) = (schema_bytes(a@), schema_bytes(b@)) {
        lemma_bytes_order_total(x, y);
    }
    if let (Some((xs, m)), Some((ys, n))) = (a.hash_partition, b.hash_partition) {
        assert(a@.hash_partition == Some((xs@, m)));
        assert(b@.hash_partition == Some((ys@, n)));
        lemma_texts_order_total(debug_texts(xs@), debug_texts(ys@));
    }
    if let (Some(x), Some(y)) = (a.distribute_by, b.distribute_by) {
        lemma_text_order_total(x.debug@, y.debug@);
    }
}

/// Nodes that compare as equal have the same library path, name and encoded schema, equal
/// inputs, the same number of partitions, and the same debugging texts of their distribution
/// and of their hash partitioning; and the other way round.
pub proof fn lemma_compares_equal<P: PartialOrd, X: PartialEq>(
    a: MapPartition<P, X>,
    b: MapPartition<P, X>,
)
    ensures
        a.partial_cmp_spec(&b) == Some(Ordering::Equal) <==> {
            &&& a.so_path@ == b.so_path@
            &&& a.fn_name@ == b.fn_name@
            &&& schema_bytes(a@) == schema_bytes(b@)
            &&& a.input.partial_cmp_spec(&b.input) == Some(Ordering::Equal)
            &&& a.num_partitions == b.num_partitions
            &&& match (a.distribute_by, b.distribute_by) {
                (Some(x), Some(y)) => x.debug@ == y.debug@,
                (None, None) => true,
                _ => false,
            }
            &&& match (a.hash_partition, b.hash_partition) {
                (Some((xs, m)), Some((ys, n))) => m == n && debug_texts(xs@) == debug_texts(ys@),
                (None, None) => true,
                _ => false,
            }
        },
{
    lemma_text_order_total(a.so_path@, b.so_path@);
    lemma_text_order_total(a.fn_name@, b.fn_name@);
    if let (Some(x), Some(y)) = (schema_bytes(a@), schema_bytes(b@)) {
        lemma_bytes_order_total(x, y);
    }
    if let (Some((xs, m)), Some((ys, n))) = (a.hash_partition, b.hash_partition) {
        assert(a@.hash_partition == Some((xs@, m)));
        assert(b@.hash_partition == Some((ys@, n)));
        lemma_texts_order_total(debug_texts(xs@), debug_texts(ys@));
    }
    if let (Some(x), Some(y)) = (a.distribute_by, b.distribute_by) {
        lemma_text_order_total(x.debug@, y.debug@);
    }
}

/// A node rebuilt keeps its library, its name, its schema and its number of partitions, and gets
/// the new input. Where it distributes by key, the first of the new expressions becomes the key;
/// the hash partitioning follows the key into the number of partitions, and else stays.
pub proof fn lemma_rebuilt<P, X>(
    node: MapPartition<P, X>,
    exprs: Vec<Expr<X>>,
    inputs: Vec<P>,
    new: MapPartition<P, X>,
)
    requires
        call_ensures(
            MapPartition::<P, X>::with_exprs_and_inputs,
            (&node, exprs, inputs),
            Ok::<MapPartition<P, X>, PlanError>(new),
        ),
    ensures
        inputs@.len() > 0 && new@.input == inputs@[0],
        new@.so_path == node@.so_path,
        new@.fn_name == node@.fn_name,
        new@.output_schema == node@.output_schema,
        new@.num_partitions == node@.num_partitions,
        node@.distribute_by is Some && exprs@.len() > 0 ==> new@.distribute_by == Some(exprs@[0]),
        node@.distribute_by is None || exprs@.len() == 0 ==> new@.distribute_by is None,
        new@.distribute_by matches Some(expr) ==> (node@.num_partitions matches Some(n)
            ==> new@.hash_partition == Some((seq![expr], n))),
        new@.distribute_by is None || node@.num_partitions is None ==> new@.hash_partition
            == node@.hash_partition,
{
}

/// Of two rebuildings of a node that distributes by key into a number of partitions, the second
/// decides.
pub proof fn lemma_rebuilt_again<P, X>(
    node: LogicalNode<P, X>,
    exprs: Seq<Expr<X>>,
    input: P,
    others: Seq<Expr<X>>,
    other: P,
)
    requires
        node.distribute_by is Some,
        node.num_partitions is Some,
        exprs.len() > 0,
        others.len() > 0,
    ensures
        rebuilt(rebuilt(node, exprs, input), others, other) == rebuilt(node, others, other),
{
}

/// The expressions of a node are its key, where it distributes by one; and a node rebuilt from
/// them distributes by the same key.
pub proof fn lemma_expressions<P, X>(node: MapPartition<P, X>, exprs: Vec<Expr<X>>)
    requires
        call_ensures(MapPartition::<P, X>::expressions, (&node,), exprs),
    ensures
        node@.distribute_by matches Some(expr) ==> exprs@ == seq![expr],
        node@.distribute_by is None ==> exprs@.len() == 0,
        rebuilt(node@, exprs@, node@.input).distribute_by == node@.distribute_by,
{
}

/// A plan shows a node by its library, its function and the key it distributes by, if any.
pub proof fn lemma_shows_node<P, X>(node: MapPartition<P, X>, text: String)
    requires
        call_ensures(MapPartition::<P, X>::fmt_for_explain, (&node,), text),
    ensures
        match node.distribute_by {
            None => text@ == "MapPartition: so="@ + node.so_path@ + ", fn="@ + node.fn_name@,
            Some(expr) => text@ == "MapPartition: so="@ + node.so_path@ + ", fn="@ + node.fn_name@
                + ", distribute_by=["@ + expr.display@ + "]"@,
        },
{
}

/// What comes behind the number of partitions in the values of a hash.
spec fn hash_tail<P, X>(node: LogicalNode<P, X>) -> Seq<HashValue<P>> {
    match node.hash_partition {
        Some((exprs, n)) => debug_texts(exprs).map_values(
            |text: Seq<char>| HashValue::<P>::Text(text),
        ).push(HashValue::Size(n)),
        None => Seq::empty(),
    }
}

/// Everything by which nodes are compared goes into the hash: nodes with the same values have
/// the same library path, name, encoded schema and input, the same number of partitions, and
/// the same debugging texts of their distribution and of their hash partitioning.
pub proof fn lemma_hashes_all<P, X>(a: LogicalNode<P, X>, b: LogicalNode<P, X>)
    requires
        hash_values(a) == hash_values(b),
    ensures
        a.so_path == b.so_path,
        a.fn_name == b.fn_name,
        schema_bytes(a) == schema_bytes(b),
        a.input == b.input,
        a.num_partitions == b.num_partitions,
        match (a.distribute_by, b.distribute_by) {
            (Some(x), Some(y)) => x.debug@ == y.debug@,
            (None, None) => true,
            _ => false,
        },
        match (a.hash_partition, b.hash_partition) {
            (Some((xs, m)), Some((ys, n))) => m == n && debug_texts(xs) == debug_texts(ys),
            (None, None) => true,
            _ => false,
        },
{
    let x = hash_values(a);
    let y = hash_values(b);
    assert(x[0] == y[0]);
    assert(x[1] == y[1]);
    assert(x[2] == y[2]);
    let i: int = if schema_bytes(a) is Some {
        3
    } else {
        2
    };
    assert(x[i] == y[i]);
    assert(x[i] == HashValue::<P>::Plan(a.input));
    assert(x[i + 1] == y[i + 1]);
    let j: int = if a.distribute_by is Some {
        i + 2
    } else {
        i + 1
    };
    assert(x[j] == y[j]);
    assert(x[j] == HashValue::<P>::Count(a.num_partitions));
    assert(y[j] == HashValue::<P>::Count(b.num_partitions));
    let s = x.skip(j + 1);
    assert(s =~= hash_tail(a));
    assert(s =~= hash_tail(b));
    if let (Some((xs, m)), Some((ys, n))) = (a.hash_partition, b.hash_partition) {
        assert(s.last() == HashValue::<P>::Size(m));
        assert(s.last() == HashValue::<P>::Size(n));
        assert(debug_texts(xs).len() == debug_texts(ys).len());
        assert forall|k: int| 0 <= k < debug_texts(xs).len() implies debug_texts(xs)[k]
            == debug_texts(ys)[k] by {
            assert(s[k] == HashValue::<P>::Text(debug_texts(xs)[k]));
            assert(s[k] == HashValue::<P>::Text(debug_texts(ys)[k]));
        }
        assert(debug_texts(xs) =~= debug_texts(ys));
    } else {
        assert(s.len() == hash_tail(a).len());
        assert(s.len() == hash_tail(b).len());
    }
}

} // verus!
