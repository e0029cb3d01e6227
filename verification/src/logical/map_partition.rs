//! The logical node that runs a processor library over each partition of its input.
use std::cmp::Ordering;
use std::sync::Arc;

use arrow::datatypes::Schema;
use vstd::prelude::*;
use vstd::std_specs::cmp::{PartialEqSpec, PartialEqSpecImpl, PartialOrdSpec, PartialOrdSpecImpl};

use crate::error::{ErrorKind, PlanError};
use crate::expr::{dup_hash, hash_view, Expr};
use crate::order::{
    bytes_order, compare_bytes, compare_sizes, compare_texts, lemma_bytes_order_total,
    lemma_text_order_total, lemma_texts_order_total, number_order, reversed, text_order,
    texts_order, Order,
};
use crate::physical::map_partition_exec::{encode_schema_to_ipc, node_text, show_node, shown};
use crate::schema::{same_schema, schema_contents, schema_message, schema_ordered};

verus! {

/// The logical node.
#[derive(Debug)]
pub struct MapPartition<P, X> {
    pub so_path: String,
    pub fn_name: String,
    pub output_schema: Arc<Schema>,
    pub input: P,
    /// Rows with the same value of this go to the same processor, rows with different
    /// values to different ones.
    pub distribute_by: Option<Expr<X>>,
    /// The number of partitions asked for with it.
    pub num_partitions: Option<usize>,
    /// The hash partitioning that the input has to have.
    pub hash_partition: Option<(Vec<Expr<X>>, usize)>,
}

/// What a logical node is.
pub struct LogicalNode<P, X> {
    pub so_path: Seq<char>,
    pub fn_name: Seq<char>,
    pub output_schema: Arc<Schema>,
    pub input: P,
    pub distribute_by: Option<Expr<X>>,
    pub num_partitions: Option<usize>,
    pub hash_partition: Option<(Seq<Expr<X>>, usize)>,
}

impl<P, X> View for MapPartition<P, X> {
    type V = LogicalNode<P, X>;

    open spec fn view(&self) -> LogicalNode<P, X> {
        LogicalNode {
            so_path: self.so_path@,
            fn_name: self.fn_name@,
            output_schema: self.output_schema,
            input: self.input,
            distribute_by: self.distribute_by,
            num_partitions: self.num_partitions,
            hash_partition: hash_view(self.hash_partition),
        }
    }
}

/// `==` on expressions: that of their values.
pub open spec fn same_expr<X: PartialEq>(a: Expr<X>, b: Expr<X>) -> bool {
    (*a.value).eq_spec(&*b.value)
}

/// `==` on optional expressions.
pub open spec fn same_opt_expr<X: PartialEq>(a: Option<Expr<X>>, b: Option<Expr<X>>) -> bool {
    match (a, b) {
        (Some(a), Some(b)) => same_expr(a, b),
        (None, None) => true,
        _ => false,
    }
}

/// `==` on optional hash partitionings.
pub open spec fn same_opt_hash<X: PartialEq>(
    a: Option<(Seq<Expr<X>>, usize)>,
    b: Option<(Seq<Expr<X>>, usize)>,
) -> bool {
    match (a, b) {
        (Some((a, m)), Some((b, n))) => {
            &&& a.len() == b.len()
            &&& m == n
            &&& forall|i: int| 0 <= i < a.len() ==> same_expr(#[trigger] a[i], b[i])
        },
        (None, None) => true,
        _ => false,
    }
}

/// `==` on nodes: all fields are equal.
pub open spec fn same_node<P: PartialEq, X: PartialEq>(
    a: LogicalNode<P, X>,
    b: LogicalNode<P, X>,
) -> bool {
    &&& a.so_path == b.so_path
    &&& a.fn_name == b.fn_name
    &&& schema_contents(*a.output_schema) == schema_contents(*b.output_schema)
    &&& a.input.eq_spec(&b.input)
    &&& same_opt_expr(a.distribute_by, b.distribute_by)
    &&& a.num_partitions == b.num_partitions
    &&& same_opt_hash(a.hash_partition, b.hash_partition)
}

/// Whether two optional expressions are equal.
fn equal_opt_exprs<X: PartialEq>(a: &Option<Expr<X>>, b: &Option<Expr<X>>) -> (same: bool)
    ensures
        X::obeys_eq_spec() ==> same == same_opt_expr(*a, *b),
{
    match (a, b) {
        (Some(a), Some(b)) => *a.value == *b.value,
        (None, None) => true,
        _ => false,
    }
}

/// Whether two lists of expressions of the same length are equal.
fn equal_exprs<X: PartialEq>(a: &Vec<Expr<X>>, b: &Vec<Expr<X>>) -> (same: bool)
    requires
        a@.len() == b@.len(),
    ensures
        X::obeys_eq_spec() ==> same == (forall|i: int|
            0 <= i < a@.len() ==> same_expr(#[trigger] a@[i], b@[i])),
{
    let mut i: usize = 0;
    while i < a.len()
        invariant
            i <= a@.len(),
            a@.len() == b@.len(),
            X::obeys_eq_spec() ==> forall|j: int|
                0 <= j < i ==> same_expr(#[trigger] a@[j], b@[j]),
        decreases a@.len() - i,
    {
        if *a[i].value != *b[i].value {
            assert(X::obeys_eq_spec() ==> !same_expr(a@[i as int], b@[i as int]));
            return false;
        }
        i = i + 1;
    }
    true
}

/// Whether two optional hash partitionings are equal.
fn equal_opt_hashes<X: PartialEq>(
    a: &Option<(Vec<Expr<X>>, usize)>,
    b: &Option<(Vec<Expr<X>>, usize)>,
) -> (same: bool)
    ensures
        X::obeys_eq_spec() ==> same == same_opt_hash(hash_view(*a), hash_view(*b)),
{
    match (a, b) {
        (Some((xs, m)), Some((ys, n))) => *m == *n && xs.len() == ys.len() && equal_exprs(xs, ys),
        (None, None) => true,
        _ => false,
    }
}

impl<P: PartialEq, X: PartialEq> PartialEq for MapPartition<P, X> {
    fn eq(&self, other: &Self) -> (same: bool) {
        self.so_path == other.so_path && self.fn_name == other.fn_name && same_schema(
            &self.output_schema,
            &other.output_schema,
        ) && self.input == other.input && equal_opt_exprs(&self.distribute_by, &other.distribute_by)
            && self.num_partitions == other.num_partitions && equal_opt_hashes(
            &self.hash_partition,
            &other.hash_partition,
        )
    }
}

impl<P: PartialEq, X: PartialEq> PartialEqSpecImpl for MapPartition<P, X> {
    open spec fn obeys_eq_spec() -> bool {
        P::obeys_eq_spec() && X::obeys_eq_spec()
    }

    open spec fn eq_spec(&self, other: &Self) -> bool {
        same_node(self@, other@)
    }
}

/// The comparison that `order` stands for.
pub open spec fn comparison(order: Order) -> Ordering {
    match order {
        Order::Less => Ordering::Less,
        Order::Equal => Ordering::Equal,
        Order::Greater => Ordering::Greater,
    }
}

/// The comparison that `order` stands for.
fn comparison_of(order: Order) -> (result: Ordering)
    ensures
        result == comparison(order),
{
    match order {
        Order::Less => Ordering::Less,
        Order::Equal => Ordering::Equal,
        Order::Greater => Ordering::Greater,
    }
}

/// The debugging texts of expressions.
pub open spec fn debug_texts<X>(exprs: Seq<Expr<X>>) -> Seq<Seq<char>> {
    exprs.map_values(|e: Expr<X>| e.debug@)
}

/// The order of optional values: none comes first.
pub open spec fn opt_expr_order<X>(a: Option<Expr<X>>, b: Option<Expr<X>>) -> Order {
    match (a, b) {
        (Some(a), Some(b)) => text_order(a.debug@, b.debug@),
        (None, None) => Order::Equal,
        (None, Some(_)) => Order::Less,
        (Some(_), None) => Order::Greater,
    }
}

/// The order of optional hash partitionings: none comes first, then the texts decide,
/// then the number of partitions.
pub open spec fn opt_hash_order<X>(
    a: Option<(Seq<Expr<X>>, usize)>,
    b: Option<(Seq<Expr<X>>, usize)>,
) -> Order {
    match (a, b) {
        (Some((a, m)), Some((b, n))) => if debug_texts(a) != debug_texts(b) {
            texts_order(debug_texts(a), debug_texts(b))
        } else {
            number_order(m as int, n as int)
        },
        (None, None) => Order::Equal,
        (None, Some(_)) => Order::Less,
        (Some(_), None) => Order::Greater,
    }
}

/// The order of optional numbers: none comes first.
pub open spec fn opt_number_order(a: Option<usize>, b: Option<usize>) -> Order {
    match (a, b) {
        (Some(a), Some(b)) => number_order(a as int, b as int),
        (None, None) => Order::Equal,
        (None, Some(_)) => Order::Less,
        (Some(_), None) => Order::Greater,
    }
}

/// The order of the debugging texts of two lists of expressions.
fn compare_exprs<X>(a: &Vec<Expr<X>>, b: &Vec<Expr<X>>) -> (order: Order)
    ensures
        order == texts_order(debug_texts(a@), debug_texts(b@)),
{
    let ghost x = debug_texts(a@);
    let ghost y = debug_texts(b@);
    let mut i: usize = 0;
    proof {
        assert(x.skip(0) =~= x);
        assert(y.skip(0) =~= y);
    }
    while i < a.len() && i < b.len()
        invariant
            x == debug_texts(a@),
            y == debug_texts(b@),
            i <= a@.len(),
            i <= b@.len(),
            texts_order(x, y) == texts_order(x.skip(i as int), y.skip(i as int)),
        decreases a@.len() - i,
    {
        proof {
            assert(x.skip(i as int)[0] == a@[i as int].debug@);
            assert(y.skip(i as int)[0] == b@[i as int].debug@);
            assert(x.skip(i as int).skip(1) =~= x.skip(i + 1));
            assert(y.skip(i as int).skip(1) =~= y.skip(i + 1));
            lemma_text_order_total(a@[i as int].debug@, b@[i as int].debug@);
        }
        let order = compare_texts(a[i].debug.as_str(), b[i].debug.as_str());
        if order != Order::Equal {
            return order;
        }
        i = i + 1;
    }
    compare_sizes(a.len(), b.len())
}

/// The order of two optional expressions.
fn compare_opt_exprs<X>(a: &Option<Expr<X>>, b: &Option<Expr<X>>) -> (order: Order)
    ensures
        order == opt_expr_order(*a, *b),
{
    match (a, b) {
        (Some(a), Some(b)) => compare_texts(a.debug.as_str(), b.debug.as_str()),
        (None, None) => Order::Equal,
        (None, Some(_)) => Order::Less,
        (Some(_), None) => Order::Greater,
    }
}

/// The order of two optional hash partitionings.
fn compare_opt_hashes<X>(
    a: &Option<(Vec<Expr<X>>, usize)>,
    b: &Option<(Vec<Expr<X>>, usize)>,
) -> (order: Order)
    ensures
        order == opt_hash_order(hash_view(*a), hash_view(*b)),
{
    match (a, b) {
        (Some((xs, m)), Some((ys, n))) => {
            proof {
                lemma_texts_order_total(debug_texts(xs@), debug_texts(ys@));
            }
            match compare_exprs(xs, ys) {
                Order::Equal => compare_sizes(*m, *n),
                order => order,
            }
        },
        (None, None) => Order::Equal,
        (None, Some(_)) => Order::Less,
        (Some(_), None) => Order::Greater,
    }
}

/// The order of two optional numbers.
fn compare_opt_sizes(a: Option<usize>, b: Option<usize>) -> (order: Order)
    ensures
        order == opt_number_order(a, b),
{
    match (a, b) {
        (Some(a), Some(b)) => compare_sizes(a, b),
        (None, None) => Order::Equal,
        (None, Some(_)) => Order::Less,
        (Some(_), None) => Order::Greater,
    }
}

/// The encoded schema of a node; nothing where its message is too large.
pub open spec fn schema_bytes<P, X>(node: LogicalNode<P, X>) -> Option<Seq<u8>> {
    schema_message(*node.output_schema)
}

/// The order of two encodings, a missing one first.
pub open spec fn opt_bytes_order(a: Option<Seq<u8>>, b: Option<Seq<u8>>) -> Order {
    match (a, b) {
        (Some(a), Some(b)) => bytes_order(a, b),
        (None, None) => Order::Equal,
        (None, Some(_)) => Order::Less,
        (Some(_), None) => Order::Greater,
    }
}

/// Two encodings are the same exactly where they compare as equal, and the order the other
/// way round is the reverse.
proof fn lemma_opt_bytes_order_total(a: Option<Seq<u8>>, b: Option<Seq<u8>>)
    ensures
        opt_bytes_order(a, b) == Order::Equal <==> a == b,
        opt_bytes_order(b, a) == reversed(opt_bytes_order(a, b)),
{
    if let (Some(a), Some(b)) = (a, b) {
        lemma_bytes_order_total(a, b);
    }
}

/// The comparison of two nodes: by library path, name, encoded schema, input, hash
/// partitioning, distribution and number of partitions, the first difference deciding.
pub open spec fn node_comparison<P: PartialOrd, X>(
    a: LogicalNode<P, X>,
    b: LogicalNode<P, X>,
) -> Option<Ordering> {
    if a.so_path != b.so_path {
        Some(comparison(text_order(a.so_path, b.so_path)))
    } else if a.fn_name != b.fn_name {
        Some(comparison(text_order(a.fn_name, b.fn_name)))
    } else if schema_bytes(a) != schema_bytes(b) {
        Some(comparison(opt_bytes_order(schema_bytes(a), schema_bytes(b))))
    } else if a.input.partial_cmp_spec(&b.input) != Some(Ordering::Equal) {
        a.input.partial_cmp_spec(&b.input)
    } else if opt_hash_order(a.hash_partition, b.hash_partition) != Order::Equal {
        Some(comparison(opt_hash_order(a.hash_partition, b.hash_partition)))
    } else if opt_expr_order(a.distribute_by, b.distribute_by) != Order::Equal {
        Some(comparison(opt_expr_order(a.distribute_by, b.distribute_by)))
    } else {
        Some(comparison(opt_number_order(a.num_partitions, b.num_partitions)))
    }
}

impl<P: PartialOrd, X: PartialEq> PartialOrd for MapPartition<P, X> {
    fn partial_cmp(&self, other: &Self) -> (result: Option<Ordering>) {
        proof {
            lemma_text_order_total(self.so_path@, other.so_path@);
            lemma_text_order_total(self.fn_name@, other.fn_name@);
            lemma_opt_bytes_order_total(schema_bytes(self@), schema_bytes(other@));
        }
        match compare_texts(self.so_path.as_str(), other.so_path.as_str()) {
            Order::Equal => {},
            order => return Some(comparison_of(order)),
        }
        match compare_texts(self.fn_name.as_str(), other.fn_name.as_str()) {
            Order::Equal => {},
            order => return Some(comparison_of(order)),
        }
        let schema_order = match (
            encode_schema_to_ipc(&self.output_schema),
            encode_schema_to_ipc(&other.output_schema),
        ) {
            (Ok(a), Ok(b)) => compare_bytes(&a, &b),
            (Err(_), Err(_)) => Order::Equal,
            (Err(_), Ok(_)) => Order::Less,
            (Ok(_), Err(_)) => Order::Greater,
        };
        match schema_order {
            Order::Equal => {},
            order => return Some(comparison_of(order)),
        }
        match self.input.partial_cmp(&other.input) {
            Some(Ordering::Equal) => {},
            result => return result,
        }
        match compare_opt_hashes(&self.hash_partition, &other.hash_partition) {
            Order::Equal => {},
            order => return Some(comparison_of(order)),
        }
        match compare_opt_exprs(&self.distribute_by, &other.distribute_by) {
            Order::Equal => {},
            order => return Some(comparison_of(order)),
        }
        Some(comparison_of(compare_opt_sizes(self.num_partitions, other.num_partitions)))
    }
}

impl<P: PartialOrd, X: PartialEq> PartialOrdSpecImpl for MapPartition<P, X> {
    open spec fn obeys_partial_cmp_spec() -> bool {
        P::obeys_partial_cmp_spec()
    }

    open spec fn partial_cmp_spec(&self, other: &Self) -> Option<Ordering> {
        node_comparison(self@, other@)
    }
}

/// The comparison seen from the other side.
pub open spec fn flipped(result: Option<Ordering>) -> Option<Ordering> {
    match result {
        Some(Ordering::Less) => Some(Ordering::Greater),
        Some(Ordering::Greater) => Some(Ordering::Less),
        other => other,
    }
}

/// Comparing two nodes the other way round gives the reverse, if it does so for their
/// inputs.
pub proof fn lemma_comparison_flips<P: PartialOrd, X>(a: LogicalNode<P, X>, b: LogicalNode<P, X>)
    requires
        b.input.partial_cmp_spec(&a.input) == flipped(a.input.partial_cmp_spec(&b.input)),
    ensures
        node_comparison(b, a) == flipped(node_comparison(a, b)),
{
    lemma_text_order_total(a.so_path, b.so_path);
    lemma_text_order_total(a.fn_name, b.fn_name);
    lemma_opt_bytes_order_total(schema_bytes(a), schema_bytes(b));
    if let (Some((xs, _)), Some((ys, _))) = (a.hash_partition, b.hash_partition) {
        lemma_texts_order_total(debug_texts(xs), debug_texts(ys));
    }
    if let (Some(x), Some(y)) = (a.distribute_by, b.distribute_by) {
        lemma_text_order_total(x.debug@, y.debug@);
    }
}

/// Equal expressions have the same debugging text.
pub open spec fn debug_follows<X: PartialEq>() -> bool {
    forall|a: Expr<X>, b: Expr<X>| #[trigger] same_expr(a, b) ==> a.debug@ == b.debug@
}

/// Equal hash partitionings have the same debugging texts.
proof fn lemma_same_texts<X: PartialEq>(a: Seq<Expr<X>>, b: Seq<Expr<X>>)
    requires
        debug_follows::<X>(),
        a.len() == b.len(),
        forall|i: int| 0 <= i < a.len() ==> same_expr(#[trigger] a[i], b[i]),
    ensures
        debug_texts(a) == debug_texts(b),
{
    assert(debug_texts(a) =~= debug_texts(b));
}

/// Nodes that are equal compare as equal, if that holds of their inputs, their
/// expressions keep equal debugging texts, and their dictionaries are ordered alike.
pub proof fn lemma_equal_compares_equal<P: PartialOrd, X: PartialEq>(
    a: LogicalNode<P, X>,
    b: LogicalNode<P, X>,
)
    requires
        same_node(a, b),
        debug_follows::<X>(),
        schema_ordered(*a.output_schema) == schema_ordered(*b.output_schema),
        a.input.partial_cmp_spec(&b.input) == Some(Ordering::Equal),
    ensures
        node_comparison(a, b) == Some(Ordering::Equal),
{
    if let (Some((xs, _)), Some((ys, _))) = (a.hash_partition, b.hash_partition) {
        lemma_same_texts(xs, ys);
    }
    if let (Some(x), Some(y)) = (a.distribute_by, b.distribute_by) {
        lemma_text_order_total(x.debug@, y.debug@);
    }
}

/// A value that goes into the hash of a node.
#[derive(Debug)]
pub enum HashPart<'a, P> {
    Text(String),
    Bytes(Vec<u8>),
    Plan(&'a P),
    Count(Option<usize>),
    Size(usize),
}

/// What a part of the hash is.
pub enum HashValue<P> {
    Text(Seq<char>),
    Bytes(Seq<u8>),
    Plan(P),
    Count(Option<usize>),
    Size(usize),
}

impl<'a, P> View for HashPart<'a, P> {
    type V = HashValue<P>;

    open spec fn view(&self) -> HashValue<P> {
        match *self {
            HashPart::Text(text) => HashValue::Text(text@),
            HashPart::Bytes(bytes) => HashValue::Bytes(bytes@),
            HashPart::Plan(plan) => HashValue::Plan(*plan),
            HashPart::Count(count) => HashValue::Count(count),
            HashPart::Size(size) => HashValue::Size(size),
        }
    }
}

/// What the parts of a hash are.
pub open spec fn part_values<P>(parts: Seq<HashPart<'_, P>>) -> Seq<HashValue<P>> {
    parts.map_values(|part: HashPart<'_, P>| part@)
}

/// Texts as parts of a hash.
pub open spec fn text_values<P>(texts: Seq<Seq<char>>) -> Seq<HashValue<P>> {
    texts.map_values(|text: Seq<char>| HashValue::<P>::Text(text))
}

/// The values that go into the hash of a node, in their order.
pub open spec fn hash_values<P, X>(node: LogicalNode<P, X>) -> Seq<HashValue<P>> {
    let names = seq![HashValue::Text(node.so_path), HashValue::Text(node.fn_name)];
    let schema = match schema_bytes(node) {
        Some(bytes) => seq![HashValue::Bytes(bytes)],
        None => Seq::empty(),
    };
    let input = seq![HashValue::Plan(node.input)];
    let key = match node.distribute_by {
        Some(expr) => seq![HashValue::Text(expr.debug@)],
        None => Seq::empty(),
    };
    let count = seq![HashValue::Count(node.num_partitions)];
    let hash = match node.hash_partition {
        Some((exprs, n)) => text_values(debug_texts(exprs)).push(HashValue::Size(n)),
        None => Seq::empty(),
    };
    names + schema + input + key + count + hash
}

/// Two values hash alike: they are the same, or equal inputs.
pub open spec fn hash_alike<P: PartialEq>(a: HashValue<P>, b: HashValue<P>) -> bool {
    match (a, b) {
        (HashValue::Plan(p), HashValue::Plan(q)) => p.eq_spec(&q),
        _ => a == b,
    }
}

/// Nodes that are equal hash alike, if their expressions keep equal debugging texts and
/// their dictionaries are ordered alike.
pub proof fn lemma_equal_hashes_alike<P: PartialEq, X: PartialEq>(
    a: LogicalNode<P, X>,
    b: LogicalNode<P, X>,
)
    requires
        same_node(a, b),
        debug_follows::<X>(),
        schema_ordered(*a.output_schema) == schema_ordered(*b.output_schema),
    ensures
        hash_values(a).len() == hash_values(b).len(),
        forall|i: int|
            0 <= i < hash_values(a).len() ==> hash_alike(
                #[trigger] hash_values(a)[i],
                hash_values(b)[i],
            ),
{
    if let (Some((xs, _)), Some((ys, _))) = (a.hash_partition, b.hash_partition) {
        lemma_same_texts(xs, ys);
    }
    let plan: int = if schema_bytes(a) is Some {
        3
    } else {
        2
    };
    let wanted = hash_values(a).update(plan, HashValue::Plan(b.input));
    assert(wanted =~= hash_values(b));
    assert forall|i: int| 0 <= i < hash_values(a).len() implies hash_alike(
        #[trigger] hash_values(a)[i],
        hash_values(b)[i],
    ) by {
        assert(hash_values(b)[i] == wanted[i]);
        if i != plan {
            assert(hash_values(a)[i] == hash_values(b)[i]);
            assert(!(hash_values(a)[i] is Plan));
        }
    }
}

/// The expressions of a node: the distribution, if any.
pub open spec fn node_exprs<P, X>(node: LogicalNode<P, X>) -> Seq<Expr<X>> {
    match node.distribute_by {
        Some(expr) => seq![expr],
        None => Seq::empty(),
    }
}

/// A node with other expressions and another input: the first expression becomes the
/// distribution where there was one, and the hash partitioning follows it.
pub open spec fn rebuilt<P, X>(
    node: LogicalNode<P, X>,
    exprs: Seq<Expr<X>>,
    input: P,
) -> LogicalNode<P, X> {
    let distribute_by = if node.distribute_by is Some && exprs.len() > 0 {
        Some(exprs[0])
    } else {
        None
    };
    let hash_partition = match (distribute_by, node.num_partitions) {
        (Some(expr), Some(n)) => Some((seq![expr], n)),
        _ => node.hash_partition,
    };
    LogicalNode { input, distribute_by, hash_partition, ..node }
}

/// Rebuilding a node from its own expressions and input gives it back, where its hash
/// partitioning follows its distribution.
pub proof fn lemma_rebuilt_same<P, X>(node: LogicalNode<P, X>)
    requires
        node.distribute_by matches Some(expr) && node.num_partitions matches Some(n)
            ==> node.hash_partition == Some((seq![expr], n)),
    ensures
        rebuilt(node, node_exprs(node), node.input) == node,
{
}

/// Adds the debugging texts of expressions to the parts of a hash.
fn push_texts<P, X>(parts: &mut Vec<HashPart<'_, P>>, exprs: &Vec<Expr<X>>)
    ensures
        part_values(final(parts)@) == part_values(old(parts)@) + text_values(debug_texts(exprs@)),
{
    let ghost before = part_values(parts@);
    let ghost texts = text_values::<P>(debug_texts(exprs@));
    let mut i: usize = 0;
    while i < exprs.len()
        invariant
            i <= exprs@.len(),
            texts == text_values::<P>(debug_texts(exprs@)),
            part_values(parts@) =~= before + texts.take(i as int),
        decreases exprs@.len() - i,
    {
        let ghost held = parts@;
        parts.push(HashPart::Text(exprs[i].debug.clone()));
        proof {
            assert(part_values(parts@) =~= part_values(held).push(texts[i as int]));
            assert(texts.take(i + 1) =~= texts.take(i as int).push(texts[i as int]));
        }
        i = i + 1;
    }
    proof {
        assert(texts.take(i as int) =~= texts);
    }
}

impl<P, X> MapPartition<P, X> {
    /// A node over `input`.
    pub fn new(
        so_path: String,
        fn_name: String,
        output_schema: Arc<Schema>,
        input: P,
        distribute_by: Option<Expr<X>>,
        num_partitions: Option<usize>,
        hash_partition: Option<(Vec<Expr<X>>, usize)>,
    ) -> (node: MapPartition<P, X>)
        ensures
            node@ == (LogicalNode {
                so_path: so_path@,
                fn_name: fn_name@,
                output_schema,
                input,
                distribute_by,
                num_partitions,
                hash_partition: hash_view(hash_partition),
            }),
    {
        MapPartition {
            so_path,
            fn_name,
            output_schema,
            input,
            distribute_by,
            num_partitions,
            hash_partition,
        }
    }

    /// The name of the node.
    pub fn name(&self) -> (name: &str)
        ensures
            name@ == "MapPartition"@,
    {
        "MapPartition"
    }

    /// The inputs of the node: the one.
    pub fn inputs(&self) -> (inputs: Vec<&P>)
        ensures
            inputs@ == seq![&self.input],
    {
        let mut inputs: Vec<&P> = Vec::new();
        inputs.push(&self.input);
        inputs
    }

    /// The schema of the rows that the node gives.
    pub fn schema(&self) -> (schema: &Arc<Schema>)
        ensures
            *schema == self.output_schema,
    {
        &self.output_schema
    }

    /// The expressions of the node.
    pub fn expressions(&self) -> (exprs: Vec<Expr<X>>)
        ensures
            exprs@ == node_exprs(self@),
    {
        let mut exprs: Vec<Expr<X>> = Vec::new();
        if let Some(expr) = &self.distribute_by {
            exprs.push(expr.dup());
        }
        exprs
    }

    /// How plans show the node.
    pub fn fmt_for_explain(&self) -> (text: String)
        ensures
            text@ == node_text(
                "MapPartition: so="@,
                self@.so_path,
                self@.fn_name,
                shown(self@.distribute_by),
            ),
    {
        show_node(
            "MapPartition: so=",
            self.so_path.as_str(),
            self.fn_name.as_str(),
            &self.distribute_by,
        )
    }

    /// The node with other expressions and the first of `inputs`; without an input, an
    /// error.
    pub fn with_exprs_and_inputs(&self, exprs: Vec<Expr<X>>, inputs: Vec<P>) -> (node: Result<
        MapPartition<P, X>,
        PlanError,
    >)
        ensures
            inputs@.len() > 0 ==> (node matches Ok(new) && new@ == rebuilt(
                self@,
                exprs@,
                inputs@[0],
            )),
            inputs@.len() == 0 ==> (node matches Err(e) && e@ == (
                ErrorKind::Plan,
                "MapPartition expects single input"@,
            )),
    {
        let mut inputs = inputs;
        let mut exprs = exprs;
        if inputs.len() == 0 {
            return Err(PlanError::new(ErrorKind::Plan, "MapPartition expects single input"));
        }
        let input = inputs.remove(0);
        let distribute_by = if self.distribute_by.is_some() && exprs.len() > 0 {
            Some(exprs.remove(0))
        } else {
            None
        };
        let hash_partition = match (&distribute_by, self.num_partitions) {
            (Some(expr), Some(n)) => {
                let mut by: Vec<Expr<X>> = Vec::new();
                by.push(expr.dup());
                Some((by, n))
            },
            _ => dup_hash(&self.hash_partition),
        };
        Ok(
            MapPartition {
                so_path: self.so_path.clone(),
                fn_name: self.fn_name.clone(),
                output_schema: self.output_schema.clone(),
                input,
                distribute_by,
                num_partitions: self.num_partitions,
                hash_partition,
            },
        )
    }

    /// The values that go into the hash of the node, in their order.
    pub fn hash_parts(&self) -> (parts: Vec<HashPart<'_, P>>)
        ensures
            part_values(parts@) == hash_values(self@),
    {
        let mut parts: Vec<HashPart<'_, P>> = Vec::new();
        parts.push(HashPart::Text(self.so_path.clone()));
        parts.push(HashPart::Text(self.fn_name.clone()));
        if let Ok(bytes) = encode_schema_to_ipc(&self.output_schema) {
            parts.push(HashPart::Bytes(bytes));
        }
        parts.push(HashPart::Plan(&self.input));
        if let Some(expr) = &self.distribute_by {
            parts.push(HashPart::Text(expr.debug.clone()));
        }
        parts.push(HashPart::Count(self.num_partitions));
        let ghost head = LogicalNode { hash_partition: None, ..self@ };
        assert(part_values(parts@) =~= hash_values(head));
        if let Some((exprs, count)) = &self.hash_partition {
            push_texts(&mut parts, exprs);
            let ghost held = parts@;
            parts.push(HashPart::Size(*count));
            assert(part_values(parts@) =~= part_values(held).push(HashValue::Size(*count)));
        }
        assert(part_values(parts@) =~= hash_values(self@));
        parts
    }
}

} // verus!
