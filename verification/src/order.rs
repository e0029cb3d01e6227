//! The lexicographic order of texts, bytes and lists of texts.
use vstd::prelude::*;

verus! {

/// How one value stands to another.
#[derive(Debug, Clone, Copy, PartialEq, Eq, Structural)]
pub enum Order {
    Less,
    Equal,
    Greater,
}

/// How `b` stands to `a` where `a` stands to `b` in the given way.
pub open spec fn reversed(order: Order) -> Order {
    match order {
        Order::Less => Order::Greater,
        Order::Equal => Order::Equal,
        Order::Greater => Order::Less,
    }
}

/// The order of numbers.
pub open spec fn number_order(a: int, b: int) -> Order {
    if a < b {
        Order::Less
    } else if a == b {
        Order::Equal
    } else {
        Order::Greater
    }
}

/// The lexicographic order of sequences of numbers: the first difference decides, and
/// a sequence comes before its extensions.
pub open spec fn lex_order(a: Seq<int>, b: Seq<int>) -> Order
    decreases a.len(),
{
    if a.len() == 0 || b.len() == 0 {
        number_order(a.len() as int, b.len() as int)
    } else if a[0] != b[0] {
        number_order(a[0], b[0])
    } else {
        lex_order(a.skip(1), b.skip(1))
    }
}

/// A text as its code points.
pub open spec fn code_points(text: Seq<char>) -> Seq<int> {
    text.map_values(|c: char| c as int)
}

/// The order of texts: by code points.
pub open spec fn text_order(a: Seq<char>, b: Seq<char>) -> Order {
    lex_order(code_points(a), code_points(b))
}

/// Bytes as numbers.
pub open spec fn byte_values(bytes: Seq<u8>) -> Seq<int> {
    bytes.map_values(|b: u8| b as int)
}

/// The order of byte strings.
pub open spec fn bytes_order(a: Seq<u8>, b: Seq<u8>) -> Order {
    lex_order(byte_values(a), byte_values(b))
}

/// The order of lists of texts: the first difference decides, and a list comes before
/// its extensions.
pub open spec fn texts_order(a: Seq<Seq<char>>, b: Seq<Seq<char>>) -> Order
    decreases a.len(),
{
    if a.len() == 0 || b.len() == 0 {
        number_order(a.len() as int, b.len() as int)
    } else if a[0] != b[0] {
        text_order(a[0], b[0])
    } else {
        texts_order(a.skip(1), b.skip(1))
    }
}

/// Sequences are in the order `Equal` exactly where they are the same, and the order of
/// `b` to `a` is the reverse of that of `a` to `b`.
pub proof fn lemma_lex_total(a: Seq<int>, b: Seq<int>)
    ensures
        lex_order(a, b) == Order::Equal <==> a == b,
        lex_order(b, a) == reversed(lex_order(a, b)),
    decreases a.len(),
{
    if a.len() == 0 || b.len() == 0 {
        if a.len() == b.len() {
            assert(a =~= b);
        }
    } else if a[0] == b[0] {
        lemma_lex_total(a.skip(1), b.skip(1));
        if a.skip(1) == b.skip(1) {
            assert(a =~= seq![a[0]] + a.skip(1));
            assert(b =~= seq![b[0]] + b.skip(1));
        }
    }
}

/// The lexicographic order is transitive.
pub proof fn lemma_lex_transitive(a: Seq<int>, b: Seq<int>, c: Seq<int>)
    requires
        lex_order(a, b) == Order::Less,
        lex_order(b, c) == Order::Less,
    ensures
        lex_order(a, c) == Order::Less,
    decreases a.len(),
{
    if a.len() > 0 && b.len() > 0 && c.len() > 0 && a[0] == b[0] && b[0] == c[0] {
        lemma_lex_transitive(a.skip(1), b.skip(1), c.skip(1));
    }
}

/// A text is known by its code points.
proof fn lemma_code_points_injective(a: Seq<char>, b: Seq<char>)
    ensures
        code_points(a) == code_points(b) ==> a == b,
{
    if code_points(a) == code_points(b) {
        assert(a.len() == code_points(a).len());
        assert(b.len() == code_points(b).len());
        assert forall|i: int| 0 <= i < a.len() implies a[i] == b[i] by {
            assert(code_points(a)[i] == a[i] as int);
            assert(code_points(b)[i] == b[i] as int);
        }
        assert(a =~= b);
    }
}

/// Texts are in the order `Equal` exactly where they are the same, and the order of `b`
/// to `a` is the reverse of that of `a` to `b`.
pub proof fn lemma_text_order_total(a: Seq<char>, b: Seq<char>)
    ensures
        text_order(a, b) == Order::Equal <==> a == b,
        text_order(b, a) == reversed(text_order(a, b)),
{
    lemma_lex_total(code_points(a), code_points(b));
    lemma_code_points_injective(a, b);
}

/// Byte strings are in the order `Equal` exactly where they are the same, and the order
/// of `b` to `a` is the reverse of that of `a` to `b`.
pub proof fn lemma_bytes_order_total(a: Seq<u8>, b: Seq<u8>)
    ensures
        bytes_order(a, b) == Order::Equal <==> a == b,
        bytes_order(b, a) == reversed(bytes_order(a, b)),
{
    lemma_lex_total(byte_values(a), byte_values(b));
    if byte_values(a) == byte_values(b) {
        assert(a.len() == byte_values(a).len());
        assert(b.len() == byte_values(b).len());
        assert forall|i: int| 0 <= i < a.len() implies a[i] == b[i] by {
            assert(byte_values(a)[i] == a[i] as int);
            assert(byte_values(b)[i] == b[i] as int);
        }
        assert(a =~= b);
    }
}

/// The order of texts is transitive.
pub proof fn lemma_text_order_transitive(a: Seq<char>, b: Seq<char>, c: Seq<char>)
    requires
        text_order(a, b) == Order::Less,
        text_order(b, c) == Order::Less,
    ensures
        text_order(a, c) == Order::Less,
{
    lemma_lex_transitive(code_points(a), code_points(b), code_points(c));
}

/// Lists of texts are in the order `Equal` exactly where they are the same, and the
/// order of `b` to `a` is the reverse of that of `a` to `b`.
pub proof fn lemma_texts_order_total(a: Seq<Seq<char>>, b: Seq<Seq<char>>)
    ensures
        texts_order(a, b) == Order::Equal <==> a == b,
        texts_order(b, a) == reversed(texts_order(a, b)),
    decreases a.len(),
{
    if a.len() == 0 || b.len() == 0 {
        if a.len() == b.len() {
            assert(a =~= b);
        }
    } else {
        lemma_text_order_total(a[0], b[0]);
        if a[0] == b[0] {
            lemma_texts_order_total(a.skip(1), b.skip(1));
            if a.skip(1) == b.skip(1) {
                assert(a =~= seq![a[0]] + a.skip(1));
                assert(b =~= seq![b[0]] + b.skip(1));
            }
        }
    }
}

/// `str::cmp`: by the bytes, which is by the code points.
#[verifier::external_body]
pub(crate) fn compare_texts(a: &str, b: &str) -> (order: Order)
    ensures
        order == text_order(a@, b@),
{
    match a.cmp(b) {
        std::cmp::Ordering::Less => Order::Less,
        std::cmp::Ordering::Equal => Order::Equal,
        std::cmp::Ordering::Greater => Order::Greater,
    }
}

/// The order of two numbers.
pub fn compare_sizes(a: usize, b: usize) -> (order: Order)
    ensures
        order == number_order(a as int, b as int),
{
    if a < b {
        Order::Less
    } else if a == b {
        Order::Equal
    } else {
        Order::Greater
    }
}

/// The order of two byte strings.
pub fn compare_bytes(a: &Vec<u8>, b: &Vec<u8>) -> (order: Order)
    ensures
        order == bytes_order(a@, b@),
{
    let ghost x = byte_values(a@);
    let ghost y = byte_values(b@);
    let mut i: usize = 0;
    proof {
        assert(x.skip(0) =~= x);
        assert(y.skip(0) =~= y);
    }
    while i < a.len() && i < b.len()
        invariant
            x == byte_values(a@),
            y == byte_values(b@),
            i <= a@.len(),
            i <= b@.len(),
            lex_order(x, y) == lex_order(x.skip(i as int), y.skip(i as int)),
        decreases a@.len() - i,
    {
        proof {
            assert(x.skip(i as int)[0] == a@[i as int] as int);
            assert(y.skip(i as int)[0] == b@[i as int] as int);
            assert(x.skip(i as int).skip(1) =~= x.skip(i + 1));
            assert(y.skip(i as int).skip(1) =~= y.skip(i + 1));
        }
        if a[i] < b[i] {
            return Order::Less;
        }
        if a[i] > b[i] {
            return Order::Greater;
        }
        i = i + 1;
    }
    compare_sizes(a.len(), b.len())
}

/// `a` comes before `b` by what follows the first `k` items, which they have in common: it ends
/// there and `b` does not, or its next item comes before that of `b`.
pub open spec fn decided_at<T>(a: Seq<T>, b: Seq<T>, k: int, less: spec_fn(T, T) -> bool) -> bool {
    &&& 0 <= k <= a.len()
    &&& k < b.len()
    &&& forall|j: int| 0 <= j < k ==> #[trigger] a[j] == b[j]
    &&& k < a.len() ==> less(a[k], b[k])
}

/// The first difference decides the order of sequences of numbers.
proof fn lemma_lex_decided(a: Seq<int>, b: Seq<int>, k: int)
    requires
        decided_at(a, b, k, |x: int, y: int| x < y),
    ensures
        lex_order(a, b) == Order::Less,
    decreases k,
{
    if k > 0 {
        assert(a[0] == b[0]);
        assert forall|j: int| 0 <= j < k - 1 implies #[trigger] a.skip(1)[j] == b.skip(1)[j] by {
            assert(a[j + 1] == b[j + 1]);
        }
        lemma_lex_decided(a.skip(1), b.skip(1), k - 1);
    }
}

/// The first character that differs decides the order of texts, by its code point; a text comes
/// before its extensions.
pub proof fn lemma_text_decided(a: Seq<char>, b: Seq<char>, k: int)
    requires
        decided_at(a, b, k, |x: char, y: char| (x as int) < (y as int)),
    ensures
        text_order(a, b) == Order::Less,
        text_order(b, a) == Order::Greater,
{
    lemma_lex_decided(code_points(a), code_points(b), k);
    lemma_text_order_total(a, b);
}

/// The first byte that differs decides the order of byte strings; a byte string comes before
/// its extensions.
pub proof fn lemma_bytes_decided(
    a: Vec<u8>,
    b: Vec<u8>,
    k: int,
    order: Order,
    back: Order,
    same: Order,
)
    requires
        decided_at(a@, b@, k, |x: u8, y: u8| x < y),
        call_ensures(compare_bytes, (&a, &b), order),
        call_ensures(compare_bytes, (&b, &a), back),
        call_ensures(compare_bytes, (&a, &a), same),
    ensures
        order == Order::Less,
        back == Order::Greater,
        same == Order::Equal,
{
    lemma_lex_decided(byte_values(a@), byte_values(b@), k);
    lemma_bytes_order_total(a@, b@);
    lemma_bytes_order_total(a@, a@);
}

/// The first text that differs decides the order of lists of texts; a list comes before its
/// extensions.
pub proof fn lemma_texts_decided(a: Seq<Seq<char>>, b: Seq<Seq<char>>, k: int)
    requires
        decided_at(a, b, k, |x: Seq<char>, y: Seq<char>| text_order(x, y) == Order::Less),
    ensures
        texts_order(a, b) == Order::Less,
        texts_order(b, a) == Order::Greater,
    decreases k,
{
    lemma_texts_order_total(a, b);
    if k > 0 {
        assert(a[0] == b[0]);
        assert forall|j: int| 0 <= j < k - 1 implies #[trigger] a.skip(1)[j] == b.skip(1)[j] by {
            assert(a[j + 1] == b[j + 1]);
        }
        lemma_texts_decided(a.skip(1), b.skip(1), k - 1);
    } else if a.len() > 0 {
        lemma_text_order_total(a[0], b[0]);
    }
}

/// Numbers are ordered by their size.
pub proof fn lemma_sizes_ordered(a: usize, b: usize, order: Order)
    requires
        call_ensures(compare_sizes, (a, b), order),
    ensures
        order == Order::Less <==> a < b,
        order == Order::Equal <==> a == b,
        order == Order::Greater <==> a > b,
{
}

} // verus!
