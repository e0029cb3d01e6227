//! Splitting a batch into one part per key.
use vstd::prelude::*;
use vstd::std_specs::cmp::PartialEqSpec;

use crate::batch::{
    batch_columns, batch_rows, can_take_rows, check_take_rows, has_flat_columns, row_count,
    rows_taken, take_rows, Batch, TakeError, TakeStep,
};
use crate::error::{internal_error, ErrorKind, PlanError};
use crate::keys::{distinct_keys, find_key, index_of, is_key, lemma_index_of};

verus! {

/// Row `i` carries a key equal to `key`; a row without a key carries none.
pub open spec fn has_key<K: PartialEq>(keys: Seq<Option<K>>, i: int, key: K) -> bool {
    keys[i] matches Some(k) && k.eq_spec(&key)
}

/// The keys of the rows, each where it first appears.
pub open spec fn key_order<K: PartialEq>(keys: Seq<Option<K>>) -> Seq<K>
    decreases keys.len(),
{
    if keys.len() == 0 {
        Seq::empty()
    } else {
        let before = key_order(keys.drop_last());
        match keys.last() {
            Some(key) => if exists|i: int| 0 <= i < keys.len() - 1 && #[trigger] has_key(keys, i, key) {
                before
            } else {
                before.push(key)
            },
            None => before,
        }
    }
}

/// The rows that carry `key`, in ascending order.
pub open spec fn rows_with_key<K: PartialEq>(keys: Seq<Option<K>>, key: K) -> Seq<int>
    decreases keys.len(),
{
    if keys.len() == 0 {
        Seq::empty()
    } else {
        let before = rows_with_key(keys.drop_last(), key);
        if has_key(keys, keys.len() - 1, key) {
            before.push(keys.len() - 1)
        } else {
            before
        }
    }
}

/// `rows` are ascending row numbers.
pub open spec fn ascending(rows: Seq<int>) -> bool {
    forall|a: int, b: int| 0 <= a < b < rows.len() ==> #[trigger] rows[a] < #[trigger] rows[b]
}

/// A row is among the rows of a key exactly where it carries that key, and the rows
/// come in ascending order.
pub proof fn lemma_rows_with_key<K: PartialEq>(keys: Seq<Option<K>>, key: K)
    ensures
        forall|i: int|
            #[trigger] rows_with_key(keys, key).contains(i) <==> 0 <= i < keys.len() && has_key(
                keys,
                i,
                key,
            ),
        ascending(rows_with_key(keys, key)),
    decreases keys.len(),
{
    if keys.len() > 0 {
        let init = keys.drop_last();
        let before = rows_with_key(init, key);
        let after = rows_with_key(keys, key);
        lemma_rows_with_key(init, key);
        assert forall|i: int| #[trigger] after.contains(i) <==> 0 <= i < keys.len() && has_key(
            keys,
            i,
            key,
        ) by {
            if after.contains(i) {
                let a = choose|a: int| 0 <= a < after.len() && after[a] == i;
                if a < before.len() {
                    assert(before.contains(before[a]));
                    assert(init[i] == keys[i]);
                }
            }
            if 0 <= i < keys.len() && has_key(keys, i, key) {
                if i < keys.len() - 1 {
                    assert(has_key(init, i, key));
                    assert(before.contains(i));
                    let a = choose|a: int| 0 <= a < before.len() && before[a] == i;
                    assert(after[a] == i);
                } else {
                    assert(after[after.len() - 1] == i);
                }
            }
        }
        assert forall|a: int, b: int| 0 <= a < b < after.len() implies #[trigger] after[a]
            < #[trigger] after[b] by {
            assert(before.contains(before[a]));
        }
    }
}

/// The keys in the order of first appearance are distinct, and they are the keys of
/// the rows and no others.
pub proof fn lemma_key_order<K: PartialEq>(keys: Seq<Option<K>>)
    requires
        is_key::<K>(),
    ensures
        distinct_keys(key_order(keys)),
        forall|g: int|
            0 <= g < key_order(keys).len() ==> exists|i: int|
                0 <= i < keys.len() && keys[i] == Some(#[trigger] key_order(keys)[g]),
        forall|i: int|
            0 <= i < keys.len() && (#[trigger] keys[i]) is Some ==> exists|g: int|
                0 <= g < key_order(keys).len() && has_key(keys, i, #[trigger] key_order(keys)[g]),
    decreases keys.len(),
{
    if keys.len() > 0 {
        let init = keys.drop_last();
        let before = key_order(init);
        let after = key_order(keys);
        lemma_key_order(init);
        assert(forall|g: int| 0 <= g < before.len() ==> after[g] == before[g]);
        assert forall|g: int| 0 <= g < after.len() implies exists|i: int|
            0 <= i < keys.len() && keys[i] == Some(#[trigger] after[g]) by {
            if g < before.len() {
                let i = choose|i: int| 0 <= i < init.len() && init[i] == Some(before[g]);
                assert(keys[i] == Some(after[g]));
            } else {
                assert(keys[keys.len() - 1] == Some(after[g]));
            }
        }
        assert forall|i: int| 0 <= i < keys.len() && (#[trigger] keys[i]) is Some implies exists|
            g: int,
        | 0 <= g < after.len() && has_key(keys, i, #[trigger] after[g]) by {
            let last = keys.len() - 1;
            if i < last {
                assert(init[i] == keys[i]);
                let g = choose|g: int| 0 <= g < before.len() && has_key(init, i, #[trigger] before[g]);
                assert(has_key(keys, i, after[g]));
            } else {
                let key = keys[last]->0;
                if exists|j: int| 0 <= j < last && #[trigger] has_key(keys, j, key) {
                    let j = choose|j: int| 0 <= j < last && #[trigger] has_key(keys, j, key);
                    assert(init[j] == keys[j]);
                    let g = choose|g: int| 0 <= g < before.len() && has_key(init, j, #[trigger] before[g]);
                    assert(key.eq_spec(&keys[j]->0));
                    assert(has_key(keys, last, after[g]));
                } else {
                    assert(after[before.len() as int] == key);
                    assert(has_key(keys, last, after[before.len() as int]));
                }
            }
        }
        assert(distinct_keys(after)) by {
            if after.len() > before.len() {
                let key = keys.last()->0;
                assert forall|g: int| 0 <= g < before.len() implies !(#[trigger] after[g]).eq_spec(&key)
                    && !key.eq_spec(&after[g]) by {
                    let i = choose|i: int| 0 <= i < init.len() && init[i] == Some(before[g]);
                    assert(!has_key(keys, i, key));
                    assert(keys[i] == init[i]);
                    if key.eq_spec(&after[g]) {
                        assert(after[g].eq_spec(&key));
                    }
                }
            }
        }
    }
}

/// A row with a key is in exactly one group, and two rows with keys are in the same
/// group exactly where their keys are equal.
pub proof fn lemma_groups_by_key<K: PartialEq>(keys: Seq<Option<K>>, i: int, j: int)
    requires
        is_key::<K>(),
        0 <= i < keys.len(),
        0 <= j < keys.len(),
        keys[i] is Some,
        keys[j] is Some,
    ensures
        exists|g: int|
            0 <= g < key_order(keys).len() && rows_with_key(
                keys,
                #[trigger] key_order(keys)[g],
            ).contains(i),
        forall|g: int, h: int|
            0 <= g < key_order(keys).len() && 0 <= h < key_order(keys).len() && rows_with_key(
                keys,
                #[trigger] key_order(keys)[g],
            ).contains(i) && rows_with_key(keys, #[trigger] key_order(keys)[h]).contains(j) ==> (g
                == h <==> keys[i]->0.eq_spec(&keys[j]->0)),
{
    let order = key_order(keys);
    lemma_key_order(keys);
    let g = choose|g: int| 0 <= g < order.len() && has_key(keys, i, #[trigger] order[g]);
    lemma_rows_with_key(keys, order[g]);
    assert forall|g: int, h: int|
        0 <= g < order.len() && 0 <= h < order.len() && rows_with_key(
            keys,
            #[trigger] order[g],
        ).contains(i) && rows_with_key(keys, #[trigger] order[h]).contains(j) implies (g == h <==>
    keys[i]->0.eq_spec(&keys[j]->0)) by {
        lemma_rows_with_key(keys, order[g]);
        lemma_rows_with_key(keys, order[h]);
        let a = keys[i]->0;
        let b = keys[j]->0;
        assert(a.eq_spec(&order[g]));
        assert(b.eq_spec(&order[h]));
        if g == h {
            assert(order[g].eq_spec(&b));
        }
        if a.eq_spec(&b) {
            assert(a.eq_spec(&order[h]));
            assert(order[g].eq_spec(&a));
            assert(order[g].eq_spec(&order[h]));
        }
    }
}

/// A last row whose key stands in group `g` already joins that group and no other.
proof fn lemma_known_key<K: PartialEq>(keys: Seq<Option<K>>, order: Seq<K>, g: int)
    requires
        is_key::<K>(),
        keys.len() > 0,
        order == key_order(keys.drop_last()),
        0 <= g < order.len(),
        keys.last() matches Some(k) && order[g].eq_spec(&k),
    ensures
        key_order(keys) == order,
        forall|h: int|
            0 <= h < order.len() ==> rows_with_key(keys, #[trigger] order[h]) == (if h == g {
                rows_with_key(keys.drop_last(), order[h]).push(keys.len() - 1)
            } else {
                rows_with_key(keys.drop_last(), order[h])
            }),
{
    let init = keys.drop_last();
    let k = keys.last()->0;
    lemma_key_order(init);
    let i = choose|i: int| 0 <= i < init.len() && init[i] == Some(order[g]);
    assert(keys[i] == init[i]);
    assert(has_key(keys, i, k));
    assert forall|h: int| 0 <= h < order.len() implies has_key(
        keys,
        keys.len() - 1,
        #[trigger] order[h],
    ) == (h == g) by {
        if k.eq_spec(&order[h]) {
            assert(order[g].eq_spec(&order[h]));
        }
    }
}

/// A last row whose key stands in no group yet starts one.
proof fn lemma_new_key<K: PartialEq>(keys: Seq<Option<K>>, key: K)
    requires
        is_key::<K>(),
        keys.len() > 0,
        keys.last() == Some(key),
        forall|g: int|
            0 <= g < key_order(keys.drop_last()).len() ==> !(#[trigger] key_order(
                keys.drop_last(),
            )[g]).eq_spec(&key),
    ensures
        key_order(keys) == key_order(keys.drop_last()).push(key),
        forall|g: int|
            0 <= g < key_order(keys.drop_last()).len() ==> rows_with_key(
                keys,
                #[trigger] key_order(keys.drop_last())[g],
            ) == rows_with_key(keys.drop_last(), key_order(keys.drop_last())[g]),
        rows_with_key(keys, key) == seq![keys.len() - 1],
{
    let init = keys.drop_last();
    let order = key_order(init);
    lemma_key_order(init);
    assert forall|i: int| 0 <= i < keys.len() - 1 implies !#[trigger] has_key(keys, i, key) by {
        if has_key(keys, i, key) {
            assert(init[i] == keys[i]);
            let g = choose|g: int| 0 <= g < order.len() && has_key(init, i, #[trigger] order[g]);
            let k = keys[i]->0;
            assert(k.eq_spec(&order[g]));
            assert(order[g].eq_spec(&k));
            assert(order[g].eq_spec(&key));
        }
    }
    assert forall|g: int| 0 <= g < order.len() implies !has_key(
        keys,
        keys.len() - 1,
        #[trigger] order[g],
    ) by {
        if key.eq_spec(&order[g]) {
            assert(order[g].eq_spec(&key));
        }
    }
    lemma_rows_with_key(init, key);
    assert(rows_with_key(init, key) =~= Seq::<int>::empty()) by {
        if rows_with_key(init, key).len() > 0 {
            let i = rows_with_key(init, key)[0];
            assert(rows_with_key(init, key).contains(i));
            assert(keys[i] == init[i]);
            assert(has_key(keys, i, key));
        }
    }
    assert(rows_with_key(keys, key) =~= seq![keys.len() - 1]);
}

/// One more row adds its key to the order exactly where no row before it carries it.
pub proof fn lemma_key_order_push<K: PartialEq>(keys: Seq<Option<K>>, key: K)
    requires
        is_key::<K>(),
    ensures
        key_order(keys.push(Some(key))) == (match index_of(key_order(keys), key) {
            Some(_) => key_order(keys),
            None => key_order(keys).push(key),
        }),
{
    let all = keys.push(Some(key));
    assert(all.drop_last() =~= keys);
    lemma_index_of(key_order(keys), key);
    match index_of(key_order(keys), key) {
        Some(g) => lemma_known_key(all, key_order(keys), g),
        None => lemma_new_key(all, key),
    }
}

/// The keys of the rows, each where it first appears, with the rows that carry it.
/// Rows without a key belong to no group.
pub fn group_rows<K: PartialEq>(keys: Vec<Option<K>>) -> (groups: (Vec<K>, Vec<Vec<usize>>))
    requires
        is_key::<K>(),
    ensures
        groups.0@ == key_order(keys@),
        groups.1@.len() == groups.0@.len(),
        forall|g: int|
            #![trigger groups.1@[g]]
            0 <= g < groups.0@.len() ==> groups.1@[g]@.map_values(|r: usize| r as int)
                == rows_with_key(keys@, groups.0@[g]),
{
    let ghost all = keys@;
    let total: usize = keys.len();
    let mut order: Vec<K> = Vec::new();
    let mut rows: Vec<Vec<usize>> = Vec::new();
    let mut i: usize = 0;
    assert(all.take(0) =~= Seq::empty());
    for key in it: keys
        invariant
            is_key::<K>(),
            it.seq() == all,
            i == it.index(),
            total == all.len(),
            order@ == key_order(all.take(i as int)),
            rows@.len() == order@.len(),
            forall|g: int|
                #![trigger rows@[g]]
                0 <= g < order@.len() ==> rows@[g]@.map_values(|r: usize| r as int)
                    == rows_with_key(all.take(i as int), order@[g]),
    {
        let ghost seen = all.take(i as int);
        let ghost now = all.take(i + 1);
        proof {
            assert(now.drop_last() =~= seen);
            assert(now.last() == key);
            lemma_key_order(seen);
        }
        match key {
            Some(k) => {
                proof {
                    lemma_index_of(order@, k);
                }
                match find_key(&order, &k) {
                    Some(g) => {
                        let ghost old_rows = rows@;
                        rows[g].push(i);
                        proof {
                            lemma_known_key(now, order@, g as int);
                            assert(rows@[g as int]@.map_values(|r: usize| r as int)
                                =~= old_rows[g as int]@.map_values(|r: usize| r as int).push(
                                i as int,
                            ));
                        }
                    },
                    None => {
                        proof {
                            lemma_new_key(now, k);
                        }
                        let mut first: Vec<usize> = Vec::new();
                        first.push(i);
                        order.push(k);
                        rows.push(first);
                        assert(first@.map_values(|r: usize| r as int) =~= seq![i as int]);
                    },
                }
            },
            None => {},
        }
        i = i + 1;
    }
    assert(all.take(total as int) =~= all);
    (order, rows)
}

/// Row numbers as the indices that rows are taken by.
fn as_indices(rows: &Vec<usize>) -> (indices: Vec<u64>)
    ensures
        indices@.map_values(|i: u64| i as int) == rows@.map_values(|r: usize| r as int),
{
    let mut indices: Vec<u64> = Vec::new();
    let mut i: usize = 0;
    while i < rows.len()
        invariant
            i <= rows@.len(),
            indices@.len() == i,
            forall|j: int| 0 <= j < i ==> (#[trigger] indices@[j]) as int == rows@[j] as int,
        decreases rows@.len() - i,
    {
        indices.push(rows[i] as u64);
        i = i + 1;
    }
    assert(indices@.map_values(|i: u64| i as int) =~= rows@.map_values(|r: usize| r as int));
    indices
}

/// The rows of `rows` at the numbers `picked`.
pub open spec fn rows_at(rows: Seq<Seq<u8>>, picked: Seq<int>) -> Seq<Seq<u8>> {
    picked.map_values(|i: int| rows[i])
}

/// What is said where the rows of a key cannot be taken.
pub open spec fn part_error(error: TakeError) -> (ErrorKind, Seq<char>) {
    match error {
        TakeError::Take(detail) => internal_error("take: "@, detail@),
        TakeError::Assemble(detail) => internal_error("split_batch_by_key: "@, detail@),
    }
}

/// The error where the rows of a key cannot be taken.
pub fn no_part(error: TakeError) -> (e: PlanError)
    ensures
        e@ == part_error(error),
{
    match error {
        TakeError::Take(detail) => PlanError::internal("take: ", detail.as_str()),
        TakeError::Assemble(detail) => PlanError::internal(
            "split_batch_by_key: ",
            detail.as_str(),
        ),
    }
}

/// Row numbers.
pub open spec fn row_numbers(rows: Seq<usize>) -> Seq<int> {
    rows.map_values(|r: usize| r as int)
}

/// The rows are those of one of the keys.
pub open spec fn is_group<K: PartialEq>(keys: Seq<Option<K>>, rows: Seq<usize>) -> bool {
    exists|g: int|
        0 <= g < key_order(keys).len() && row_numbers(rows) == rows_with_key(
            keys,
            #[trigger] key_order(keys)[g],
        )
}

/// `taken` is what `take` gives for the rows that carry `key`.
pub open spec fn is_taken<K: PartialEq, B, F: Fn(&Vec<usize>) -> Result<B, TakeError>>(
    keys: Seq<Option<K>>,
    take: F,
    key: K,
    taken: Result<B, TakeError>,
) -> bool {
    exists|rows: Vec<usize>|
        row_numbers(rows@) == rows_with_key(keys, key) && #[trigger] call_ensures(
            take,
            (&rows,),
            taken,
        )
}

/// `take` gives a part for the rows that carry `key`.
pub open spec fn gives_part<K: PartialEq, B, F: Fn(&Vec<usize>) -> Result<B, TakeError>>(
    keys: Seq<Option<K>>,
    take: F,
    key: K,
) -> bool {
    exists|part: B| #[trigger] is_taken(keys, take, key, Ok::<B, TakeError>(part))
}

/// `parts` is the split by key: one part per key, in the order in which the keys first
/// appear, each as `take` gives it for the rows that carry the key. It is an error where
/// `take` fails for a key, after it gave the parts of all keys before.
pub open spec fn is_split_with<K: PartialEq, B, F: Fn(&Vec<usize>) -> Result<B, TakeError>>(
    keys: Seq<Option<K>>,
    take: F,
    parts: Result<Vec<(K, B)>, PlanError>,
) -> bool {
    let order = key_order(keys);
    match parts {
        Ok(p) => {
            &&& p@.len() == order.len()
            &&& forall|g: int|
                #![trigger p@[g]]
                0 <= g < p@.len() ==> p@[g].0 == order[g] && is_taken(
                    keys,
                    take,
                    order[g],
                    Ok::<B, TakeError>(p@[g].1),
                )
        },
        Err(e) => exists|g: int, error: TakeError|
            {
                &&& 0 <= g < order.len()
                &&& #[trigger] is_taken(keys, take, order[g], Err::<B, TakeError>(error))
                &&& e@ == part_error(error)
                &&& forall|h: int|
                    0 <= h < g ==> gives_part::<K, B, F>(keys, take, #[trigger] order[h])
            },
    }
}

/// Splits rows into one part per key, in the order in which the keys first appear; `keys`
/// gives the key of each row, and `take` the part for some rows. Rows without a key go into no
/// part.
pub fn split_with<K: PartialEq, B, F: Fn(&Vec<usize>) -> Result<B, TakeError>>(
    keys: Vec<Option<K>>,
    take: F,
) -> (parts: Result<Vec<(K, B)>, PlanError>)
    requires
        is_key::<K>(),
        forall|rows: Vec<usize>|
            is_group(keys@, rows@) ==> #[trigger] call_requires(take, (&rows,)),
    ensures
        is_split_with(keys@, take, parts),
{
    let ghost all = keys@;
    let (order, rows) = group_rows(keys);
    let ghost keys_of = order@;
    let total: usize = rows.len();
    let mut parts: Vec<(K, B)> = Vec::new();
    let mut g: usize = 0;
    for key in it: order
        invariant
            it.seq() == keys_of,
            keys_of == key_order(all),
            g == it.index(),
            all == keys@,
            total == rows@.len(),
            rows@.len() == keys_of.len(),
            forall|h: int|
                #![trigger rows@[h]]
                0 <= h < keys_of.len() ==> rows@[h]@.map_values(|r: usize| r as int)
                    == rows_with_key(all, keys_of[h]),
            forall|rows: Vec<usize>|
                is_group(all, rows@) ==> #[trigger] call_requires(take, (&rows,)),
            parts@.len() == g,
            forall|h: int|
                #![trigger parts@[h]]
                0 <= h < g ==> parts@[h].0 == keys_of[h] && is_taken(
                    all,
                    take,
                    keys_of[h],
                    Ok::<B, TakeError>(parts@[h].1),
                ),
    {
        assert(row_numbers(rows@[g as int]@) == rows_with_key(all, keys_of[g as int]));
        let taken = take(&rows[g]);
        assert(is_taken(all, take, keys_of[g as int], taken));
        match taken {
            Ok(part) => {
                parts.push((key, part));
            },
            Err(error) => {
                proof {
                    assert forall|h: int| 0 <= h < g implies gives_part::<K, B, F>(
                        all,
                        take,
                        #[trigger] keys_of[h],
                    ) by {
                        assert(is_taken(all, take, keys_of[h], Ok::<B, TakeError>(parts@[h].1)));
                    }
                    assert(is_taken(all, take, keys_of[g as int], Err::<B, TakeError>(error)));
                }
                return Err(no_part(error));
            },
        }
        g = g + 1;
    }
    Ok(parts)
}

/// What taking the rows at the numbers `picked` out of the batch gives.
pub open spec fn part_taken(batch: Batch, picked: Seq<int>) -> Result<
    (Seq<Seq<u8>>, Seq<Seq<char>>),
    TakeStep,
> {
    rows_taken(batch, picked.map_values(|i: int| i as u64))
}

/// `parts` is the batch split by key: one part per key, in the order in which the keys first
/// appear, each with the columns of the batch and the rows that carry its key, in their
/// order. It is an error exactly where the rows of some key cannot be taken, and never on a
/// batch whose columns are flat; it says which step failed for the first such key.
pub open spec fn is_split<K: PartialEq>(
    batch: Batch,
    keys: Seq<Option<K>>,
    parts: Result<Vec<(K, Batch)>, PlanError>,
) -> bool {
    let order = key_order(keys);
    &&& parts is Err <==> exists|g: int|
        0 <= g < order.len() && part_taken(batch, rows_with_key(keys, #[trigger] order[g])) is Err
    &&& has_flat_columns(batch) ==> parts is Ok
    &&& match parts {
        Ok(p) => {
            &&& p@.len() == order.len()
            &&& forall|g: int|
                #![trigger p@[g]]
                0 <= g < p@.len() ==> {
                    &&& p@[g].0 == order[g]
                    &&& batch_columns(p@[g].1) == batch_columns(batch)
                    &&& batch_rows(p@[g].1) == rows_at(
                        batch_rows(batch),
                        rows_with_key(keys, p@[g].0),
                    )
                }
        },
        Err(e) => exists|g: int, error: TakeError|
            {
                &&& 0 <= g < order.len()
                &&& part_taken(batch, rows_with_key(keys, #[trigger] order[g])) == Err::<
                    (Seq<Seq<u8>>, Seq<Seq<char>>),
                    TakeStep,
                >(error.step())
                &&& e@ == #[trigger] part_error(error)
                &&& forall|h: int|
                    0 <= h < g ==> part_taken(
                        batch,
                        rows_with_key(keys, #[trigger] order[h]),
                    ) is Ok
            },
    }
}

/// Row numbers that ascend within `total` rows, at least one.
pub open spec fn can_pick(rows: Seq<usize>, total: nat) -> bool {
    &&& rows.len() > 0
    &&& forall|i: int, j: int| 0 <= i < j < rows.len() ==> #[trigger] rows[i] < #[trigger] rows[j]
    &&& forall|i: int| 0 <= i < rows.len() ==> #[trigger] rows[i] < total
}

/// The rows of a key can be picked.
proof fn lemma_can_pick<K: PartialEq>(keys: Seq<Option<K>>, rows: Seq<usize>, total: nat)
    requires
        is_key::<K>(),
        keys.len() <= total,
        is_group(keys, rows),
    ensures
        can_pick(rows, total),
{
    let g = choose|g: int|
        0 <= g < key_order(keys).len() && row_numbers(rows) == rows_with_key(
            keys,
            #[trigger] key_order(keys)[g],
        );
    let key = key_order(keys)[g];
    let picked = rows_with_key(keys, key);
    lemma_key_order(keys);
    lemma_rows_with_key(keys, key);
    let i = choose|i: int| 0 <= i < keys.len() && keys[i] == Some(key);
    assert(has_key(keys, i, key));
    assert(picked.contains(i));
    assert(rows.len() == row_numbers(rows).len());
    assert forall|j: int| 0 <= j < rows.len() implies #[trigger] rows[j] < total && rows[j] as int
        == picked[j] by {
        assert(row_numbers(rows)[j] == rows[j] as int);
        assert(picked.contains(picked[j]));
    }
}

/// The rows at the given numbers can be taken out of the batch.
pub open spec fn can_take_part(batch: &Batch, rows: Seq<usize>) -> bool {
    can_take_rows(*batch) && can_pick(rows, batch_rows(*batch).len())
}

/// `taken` is the part of a batch with the rows at the given numbers, or the step that failed.
pub open spec fn is_part(batch: &Batch, rows: Seq<usize>, taken: Result<Batch, TakeError>) -> bool {
    &&& has_flat_columns(*batch) ==> taken is Ok
    &&& match taken {
        Ok(part) => {
            &&& part_taken(*batch, row_numbers(rows)) is Ok
            &&& batch_columns(part) == batch_columns(*batch)
            &&& batch_rows(part) == rows_at(batch_rows(*batch), row_numbers(rows))
        },
        Err(error) => part_taken(*batch, row_numbers(rows)) == Err::<
            (Seq<Seq<u8>>, Seq<Seq<char>>),
            TakeStep,
        >(error.step()),
    }
}

/// The rows of a batch at the given numbers.
fn take_part(batch: &Batch, rows: &Vec<usize>) -> (taken: Result<Batch, TakeError>)
    requires
        can_take_part(batch, rows@),
    ensures
        is_part(batch, rows@, taken),
{
    let indices = as_indices(rows);
    proof {
        assert(indices@.len() == indices@.map_values(|i: u64| i as int).len());
        assert(rows@.len() == row_numbers(rows@).len());
        assert forall|j: int| 0 <= j < indices@.len() implies #[trigger] indices@[j] == rows@[j] by {
            assert(indices@.map_values(|i: u64| i as int)[j] == row_numbers(rows@)[j]);
        }
        assert(indices@ =~= row_numbers(rows@).map_values(|i: int| i as u64));
        assert(indices@.map_values(|i: u64| batch_rows(*batch)[i as int]) =~= rows_at(
            batch_rows(*batch),
            row_numbers(rows@),
        ));
    }
    take_rows(batch, indices)
}

/// Splits a batch into one part per key, in the order in which the keys first appear;
/// `keys` gives the key of each row. A part has the columns of the batch and the rows
/// that carry its key, in their order. Rows without a key go into no part.
pub fn split_batch_by_key<K: PartialEq>(batch: &Batch, keys: Vec<Option<K>>) -> (parts: Result<
    Vec<(K, Batch)>,
    PlanError,
>)
    requires
        is_key::<K>(),
        keys@.len() <= batch_rows(*batch).len(),
        can_take_rows(*batch),
    ensures
        is_split(*batch, keys@, parts),
{
    let ghost all = keys@;
    let take = |rows: &Vec<usize>| -> (taken: Result<Batch, TakeError>)
        requires
            can_take_part(batch, rows@),
        ensures
            is_part(batch, rows@, taken),
        { take_part(batch, rows) };
    proof {
        assert forall|rows: Vec<usize>| is_group(all, rows@) implies #[trigger] call_requires(
            take,
            (&rows,),
        ) by {
            lemma_can_pick(all, rows@, batch_rows(*batch).len());
        }
    }
    let parts = split_with(keys, take);
    proof {
        let order = key_order(all);
        if parts is Ok {
            let p = parts->Ok_0@;
            assert forall|g: int| 0 <= g < order.len() implies part_taken(
                *batch,
                rows_with_key(all, #[trigger] order[g]),
            ) is Ok by {
                assert(p[g].0 == order[g]);
            }
        } else {
            let (g, error) = choose|g: int, error: TakeError|
                {
                    &&& 0 <= g < order.len()
                    &&& #[trigger] is_taken(all, take, order[g], Err::<Batch, TakeError>(error))
                    &&& parts->Err_0@ == part_error(error)
                    &&& forall|h: int|
                        0 <= h < g ==> gives_part::<K, Batch, _>(all, take, #[trigger] order[h])
                };
            assert(is_taken(all, take, order[g], Err::<Batch, TakeError>(error)));
            assert forall|h: int| 0 <= h < g implies part_taken(
                *batch,
                rows_with_key(all, #[trigger] order[h]),
            ) is Ok by {
                assert(gives_part::<K, Batch, _>(all, take, order[h]));
            }
        }
    }
    parts
}

/// `split_batch_by_key` where there are at most as many keys as rows and rows can be taken
/// out of the batch, `None` elsewhere.
pub fn try_split_batch_by_key<K: PartialEq>(batch: &Batch, keys: Vec<Option<K>>) -> (parts: Option<
    Result<Vec<(K, Batch)>, PlanError>,
>)
    requires
        is_key::<K>(),
    ensures
        parts is None <==> keys@.len() > batch_rows(*batch).len() || !can_take_rows(*batch),
        parts matches Some(p) ==> is_split(*batch, keys@, p),
{
    if keys.len() <= row_count(batch) && check_take_rows(batch) {
        Some(split_batch_by_key(batch, keys))
    } else {
        None
    }
}

/// The keys come in the order in which they first appear: a row carries the earlier of two keys
/// before any row carries the later.
pub proof fn lemma_first_appearance<K: PartialEq>(keys: Seq<Option<K>>, g: int, h: int)
    requires
        is_key::<K>(),
        0 <= g < h < key_order(keys).len(),
    ensures
        exists|i: int|
            {
                &&& 0 <= i < keys.len()
                &&& #[trigger] keys[i] == Some(key_order(keys)[g])
                &&& forall|j: int|
                    0 <= j <= i ==> (#[trigger] keys[j] matches Some(k) ==> !k.eq_spec(
                        &key_order(keys)[h],
                    ))
            },
    decreases keys.len(),
{
    let init = keys.drop_last();
    let before = key_order(init);
    let order = key_order(keys);
    assert(forall|a: int| 0 <= a < before.len() ==> order[a] == before[a]);
    if h < before.len() {
        lemma_first_appearance(init, g, h);
        let i = choose|i: int|
            {
                &&& 0 <= i < init.len()
                &&& #[trigger] init[i] == Some(before[g])
                &&& forall|j: int|
                    0 <= j <= i ==> (#[trigger] init[j] matches Some(k) ==> !k.eq_spec(&before[h]))
            };
        assert(keys[i] == Some(order[g]));
        assert forall|j: int| 0 <= j <= i implies (#[trigger] keys[j] matches Some(k)
            ==> !k.eq_spec(&order[h])) by {
            assert(init[j] == keys[j]);
        }
    } else {
        lemma_key_order(init);
        let i = choose|i: int| 0 <= i < init.len() && init[i] == Some(before[g]);
        assert(keys[i] == Some(order[g]));
        assert forall|j: int| 0 <= j <= i implies (#[trigger] keys[j] matches Some(k)
            ==> !k.eq_spec(&order[h])) by {
            assert(!has_key(keys, j, order[h]));
        }
    }
}

/// `picked` are the rows that carry a key, in their order.
pub open spec fn picks<K: PartialEq>(keys: Seq<Option<K>>, key: K, picked: Seq<int>) -> bool {
    &&& forall|a: int, b: int|
        0 <= a < b < picked.len() ==> #[trigger] picked[a] < #[trigger] picked[b]
    &&& forall|i: int| #[trigger]
        picked.contains(i) <==> 0 <= i < keys.len() && (keys[i] matches Some(k) && k.eq_spec(&key))
}

/// The rows of a key are picked.
proof fn lemma_picks<K: PartialEq>(keys: Seq<Option<K>>, key: K)
    ensures
        picks(keys, key, rows_with_key(keys, key)),
{
    lemma_rows_with_key(keys, key);
}

/// `order` are the keys of the rows: no two are equal, every one is carried by a row, every row
/// with a key carries one of them, and they come in the order in which they first appear.
pub open spec fn are_keys<K: PartialEq>(keys: Seq<Option<K>>, order: Seq<K>) -> bool {
    &&& forall|g: int, h: int|
        #![trigger order[g], order[h]]
        0 <= g < order.len() && 0 <= h < order.len() && g != h ==> !order[g].eq_spec(&order[h])
    &&& forall|i: int|
        0 <= i < keys.len() ==> (#[trigger] keys[i] matches Some(k) ==> exists|g: int|
            0 <= g < order.len() && k.eq_spec(&#[trigger] order[g]))
    &&& forall|g: int|
        0 <= g < order.len() ==> exists|i: int|
            0 <= i < keys.len() && keys[i] == Some(#[trigger] order[g])
    &&& forall|g: int, h: int|
        #![trigger order[g], order[h]]
        0 <= g < h < order.len() ==> comes_first(keys, order[g], order[h])
}

/// A row carries `key` before any row carries `other`.
pub open spec fn comes_first<K: PartialEq>(keys: Seq<Option<K>>, key: K, other: K) -> bool {
    exists|i: int|
        {
            &&& 0 <= i < keys.len()
            &&& #[trigger] keys[i] == Some(key)
            &&& forall|j: int|
                0 <= j <= i ==> (#[trigger] keys[j] matches Some(k) ==> !k.eq_spec(&other))
        }
}

/// The keys in their order are the keys of the rows.
proof fn lemma_are_keys<K: PartialEq>(keys: Seq<Option<K>>)
    requires
        is_key::<K>(),
    ensures
        are_keys(keys, key_order(keys)),
{
    let order = key_order(keys);
    lemma_key_order(keys);
    assert forall|i: int| 0 <= i < keys.len() implies (#[trigger] keys[i] matches Some(k)
        ==> exists|g: int| 0 <= g < order.len() && k.eq_spec(&#[trigger] order[g])) by {
        if keys[i] is Some {
            let g = choose|g: int| 0 <= g < order.len() && has_key(keys, i, #[trigger] order[g]);
            assert(keys[i]->0.eq_spec(&order[g]));
        }
    }
    assert forall|g: int, h: int|
        #![trigger order[g], order[h]]
        0 <= g < h < order.len() implies comes_first(keys, order[g], order[h]) by {
        lemma_first_appearance(keys, g, h);
    }
}

/// Rows are grouped by their keys: one group per key, with the rows that carry it.
pub proof fn lemma_grouped<K: PartialEq>(
    keys: Vec<Option<K>>,
    groups: (Vec<K>, Vec<Vec<usize>>),
)
    requires
        is_key::<K>(),
        call_ensures(group_rows::<K>, (keys,), groups),
    ensures
        are_keys(keys@, groups.0@),
        groups.1@.len() == groups.0@.len(),
        forall|g: int|
            0 <= g < groups.0@.len() ==> picks(
                keys@,
                groups.0@[g],
                row_numbers((#[trigger] groups.1@[g])@),
            ),
{
    lemma_are_keys(keys@);
    assert forall|g: int| 0 <= g < groups.0@.len() implies picks(
        keys@,
        groups.0@[g],
        row_numbers((#[trigger] groups.1@[g])@),
    ) by {
        assert(row_numbers(groups.1@[g]@) == rows_with_key(keys@, groups.0@[g]));
        lemma_picks(keys@, groups.0@[g]);
    }
}

/// A batch is split by the keys of its rows: one part per key, with the columns of the batch and
/// the rows that carry the key, in their order, and no others.
pub proof fn lemma_split<K: PartialEq>(
    batch: Batch,
    keys: Vec<Option<K>>,
    parts: Vec<(K, Batch)>,
)
    requires
        is_key::<K>(),
        call_ensures(
            split_batch_by_key::<K>,
            (&batch, keys),
            Ok::<Vec<(K, Batch)>, PlanError>(parts),
        ),
    ensures
        are_keys(keys@, parts@.map_values(|part: (K, Batch)| part.0)),
        forall|g: int|
            #![trigger parts@[g]]
            0 <= g < parts@.len() ==> {
                &&& batch_columns(parts@[g].1) == batch_columns(batch)
                &&& exists|picked: Seq<int>|
                    {
                        &&& #[trigger] picks(keys@, parts@[g].0, picked)
                        &&& batch_rows(parts@[g].1).len() == picked.len()
                        &&& forall|j: int|
                            0 <= j < picked.len() ==> #[trigger] batch_rows(parts@[g].1)[j]
                                == batch_rows(batch)[picked[j]]
                    }
            },
{
    let order = key_order(keys@);
    lemma_are_keys(keys@);
    assert(parts@.map_values(|part: (K, Batch)| part.0) =~= order);
    assert forall|g: int|
        #![trigger parts@[g]]
        0 <= g < parts@.len() implies exists|picked: Seq<int>|
        {
            &&& #[trigger] picks(keys@, parts@[g].0, picked)
            &&& batch_rows(parts@[g].1).len() == picked.len()
            &&& forall|j: int|
                0 <= j < picked.len() ==> #[trigger] batch_rows(parts@[g].1)[j] == batch_rows(
                    batch,
                )[picked[j]]
        } by {
        let picked = rows_with_key(keys@, parts@[g].0);
        lemma_picks(keys@, parts@[g].0);
        assert(batch_rows(parts@[g].1) == rows_at(batch_rows(batch), picked));
        assert(batch_rows(parts@[g].1).len() == picked.len());
    }
}

/// `part` is what `take` gives for the rows that carry `key`.
pub open spec fn takes_picked<K: PartialEq, B, F: Fn(&Vec<usize>) -> Result<B, TakeError>>(
    keys: Seq<Option<K>>,
    take: F,
    key: K,
    part: B,
) -> bool {
    exists|rows: Vec<usize>|
        picks(keys, key, row_numbers(rows@)) && #[trigger] call_ensures(
            take,
            (&rows,),
            Ok::<B, TakeError>(part),
        )
}

/// A split gives one part per key, as it is taken for the rows that carry the key. It gives an
/// error only where the rows of a key cannot be taken, and then says which step of taking them
/// failed and how.
pub proof fn lemma_split_with<K: PartialEq, B, F: Fn(&Vec<usize>) -> Result<B, TakeError>>(
    keys: Vec<Option<K>>,
    take: F,
    parts: Result<Vec<(K, B)>, PlanError>,
)
    requires
        is_key::<K>(),
        call_ensures(split_with::<K, B, F>, (keys, take), parts),
    ensures
        parts matches Ok(p) ==> {
            &&& are_keys(keys@, p@.map_values(|part: (K, B)| part.0))
            &&& forall|g: int|
                #![trigger p@[g]]
                0 <= g < p@.len() ==> takes_picked(keys@, take, p@[g].0, p@[g].1)
        },
        parts matches Err(e) ==> exists|rows: Vec<usize>, error: TakeError, i: int|
            {
                &&& 0 <= i < keys@.len()
                &&& #[trigger] keys@[i] is Some
                &&& picks(keys@, keys@[i]->0, row_numbers(rows@))
                &&& #[trigger] call_ensures(take, (&rows,), Err::<B, TakeError>(error))
                &&& e.kind == ErrorKind::Internal
                &&& e.message@ == match error {
                    TakeError::Take(text) => "take: "@ + text@,
                    TakeError::Assemble(text) => "split_batch_by_key: "@ + text@,
                }
            },
{
    let order = key_order(keys@);
    lemma_are_keys(keys@);
    if parts is Ok {
        let p = parts->Ok_0@;
        assert(p.map_values(|part: (K, B)| part.0) =~= order);
        assert forall|g: int|
            #![trigger p[g]]
            0 <= g < p.len() implies takes_picked(keys@, take, p[g].0, p[g].1) by {
            let rows = choose|rows: Vec<usize>|
                row_numbers(rows@) == rows_with_key(keys@, order[g]) && #[trigger] call_ensures(
                    take,
                    (&rows,),
                    Ok::<B, TakeError>(p[g].1),
                );
            lemma_picks(keys@, order[g]);
            assert(picks(keys@, p[g].0, row_numbers(rows@)));
        }
        assert(are_keys(keys@, p.map_values(|part: (K, B)| part.0)));
    } else {
        let e = parts->Err_0;
        let (g, error) = choose|g: int, error: TakeError|
            {
                &&& 0 <= g < order.len()
                &&& #[trigger] is_taken(keys@, take, order[g], Err::<B, TakeError>(error))
                &&& e@ == part_error(error)
                &&& forall|h: int|
                    0 <= h < g ==> gives_part::<K, B, F>(keys@, take, #[trigger] order[h])
            };
        let rows = choose|rows: Vec<usize>|
            row_numbers(rows@) == rows_with_key(keys@, order[g]) && #[trigger] call_ensures(
                take,
                (&rows,),
                Err::<B, TakeError>(error),
            );
        let i = choose|i: int| 0 <= i < keys@.len() && keys@[i] == Some(order[g]);
        lemma_picks(keys@, order[g]);
        assert(keys@[i]->0 == order[g]);
        assert(call_ensures(take, (&rows,), Err::<B, TakeError>(error)));
    }
}

/// A batch is split where there are at most as many keys as rows and rows can be taken out of it,
/// one part per key, with the rows that carry the key.
pub proof fn lemma_try_split<K: PartialEq>(
    batch: Batch,
    keys: Vec<Option<K>>,
    parts: Option<Result<Vec<(K, Batch)>, PlanError>>,
)
    requires
        is_key::<K>(),
        call_ensures(try_split_batch_by_key::<K>, (&batch, keys), parts),
    ensures
        parts is Some <==> keys@.len() <= batch_rows(batch).len() && can_take_rows(batch),
        parts is Some && has_flat_columns(batch) ==> parts->0 is Ok,
        parts matches Some(Ok(p)) ==> {
            &&& are_keys(keys@, p@.map_values(|part: (K, Batch)| part.0))
            &&& forall|g: int|
                #![trigger p@[g]]
                0 <= g < p@.len() ==> {
                    &&& batch_columns(p@[g].1) == batch_columns(batch)
                    &&& has_picked_rows(batch, keys@, p@[g].0, p@[g].1)
                }
        },
{
    lemma_are_keys(keys@);
    if let Some(Ok(p)) = parts {
        assert(p@.map_values(|part: (K, Batch)| part.0) =~= key_order(keys@));
        assert forall|g: int|
            #![trigger p@[g]]
            0 <= g < p@.len() implies has_picked_rows(batch, keys@, p@[g].0, p@[g].1) by {
            lemma_picks(keys@, p@[g].0);
            assert(picks(keys@, p@[g].0, rows_with_key(keys@, p@[g].0)));
        }
    }
}

/// The rows of `part` are the rows of the batch that carry `key`, in their order.
pub open spec fn has_picked_rows<K: PartialEq>(
    batch: Batch,
    keys: Seq<Option<K>>,
    key: K,
    part: Batch,
) -> bool {
    exists|picked: Seq<int>|
        {
            &&& #[trigger] picks(keys, key, picked)
            &&& batch_rows(part).len() == picked.len()
            &&& forall|j: int|
                0 <= j < picked.len() ==> #[trigger] batch_rows(part)[j] == batch_rows(
                    batch,
                )[picked[j]]
        }
}

} // verus!
