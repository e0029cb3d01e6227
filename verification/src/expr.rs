//! Expressions of a plan.
use std::sync::Arc;

use vstd::prelude::*;
use vstd::std_specs::cmp::PartialEqSpec;

verus! {

/// An expression, with the two texts by which plans show and compare it.
#[derive(Debug)]
pub struct Expr<X> {
    pub value: Arc<X>,
    /// The debugging text; expressions are ordered by it.
    pub debug: String,
    /// The text for readers.
    pub display: String,
}

impl<X> Expr<X> {
    /// Another handle on the same expression.
    pub fn dup(&self) -> (copy: Expr<X>)
        ensures
            copy == *self,
    {
        Expr { value: self.value.clone(), debug: self.debug.clone(), display: self.display.clone() }
    }
}

/// Handles on the same expressions.
pub fn dup_all<X>(exprs: &Vec<Expr<X>>) -> (copies: Vec<Expr<X>>)
    ensures
        copies@ == exprs@,
{
    let mut copies: Vec<Expr<X>> = Vec::new();
    let mut i: usize = 0;
    while i < exprs.len()
        invariant
            i <= exprs@.len(),
            copies@ == exprs@.take(i as int),
        decreases exprs@.len() - i,
    {
        copies.push(exprs[i].dup());
        proof {
            assert(exprs@.take(i + 1) =~= exprs@.take(i as int).push(exprs@[i as int]));
        }
        i = i + 1;
    }
    proof {
        assert(exprs@.take(i as int) =~= exprs@);
    }
    copies
}

/// A handle on the same hash partitioning, if any.
pub fn dup_hash<X>(hash: &Option<(Vec<Expr<X>>, usize)>) -> (copy: Option<(Vec<Expr<X>>, usize)>)
    ensures
        same_hash(copy, *hash),
{
    match hash {
        Some((exprs, n)) => Some((dup_all(exprs), *n)),
        None => None,
    }
}

/// `a` and `b` are the same hash partitioning.
pub open spec fn same_hash<X>(
    a: Option<(Vec<Expr<X>>, usize)>,
    b: Option<(Vec<Expr<X>>, usize)>,
) -> bool {
    hash_view(a) == hash_view(b)
}

/// A hash partitioning as its expressions and its number of partitions.
pub open spec fn hash_view<X>(hash: Option<(Vec<Expr<X>>, usize)>) -> Option<
    (Seq<Expr<X>>, usize),
> {
    match hash {
        Some((exprs, n)) => Some((exprs@, n)),
        None => None,
    }
}

/// A handle on the same expression, if any.
pub fn dup_opt<X>(expr: &Option<Expr<X>>) -> (copy: Option<Expr<X>>)
    ensures
        copy == *expr,
{
    match expr {
        Some(expr) => Some(expr.dup()),
        None => None,
    }
}

} // verus!
