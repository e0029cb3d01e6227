//! Keys that rows are grouped by.
use vstd::prelude::*;
use vstd::std_specs::cmp::PartialEqSpec;

verus! {

/// `==` on `K` is an equivalence, and two calls of it on the same keys agree.
pub open spec fn is_key<K: PartialEq>() -> bool {
    &&& K::obeys_eq_spec()
    &&& forall|a: K| #[trigger] a.eq_spec(&a)
    &&& forall|a: K, b: K| #[trigger] a.eq_spec(&b) ==> b.eq_spec(&a)
    &&& forall|a: K, b: K, c: K|
        #[trigger] a.eq_spec(&b) && #[trigger] b.eq_spec(&c) ==> a.eq_spec(&c)
}

/// No two of `keys` are equal.
pub open spec fn distinct_keys<K: PartialEq>(keys: Seq<K>) -> bool {
    forall|i: int, j: int|
        #![trigger keys[i], keys[j]]
        0 <= i < keys.len() && 0 <= j < keys.len() && i != j ==> !keys[i].eq_spec(&keys[j])
}

/// Where `key` first stands in `keys`.
pub open spec fn index_of<K: PartialEq>(keys: Seq<K>, key: K) -> Option<int>
    decreases keys.len(),
{
    if keys.len() == 0 {
        None
    } else {
        match index_of(keys.drop_last(), key) {
            Some(i) => Some(i),
            None => if keys.last().eq_spec(&key) {
                Some(keys.len() - 1)
            } else {
                None
            },
        }
    }
}

/// The index of a key is that of the first equal one; it has none where no key is equal.
pub proof fn lemma_index_of<K: PartialEq>(keys: Seq<K>, key: K)
    ensures
        index_of(keys, key) matches Some(i) ==> {
            &&& 0 <= i < keys.len()
            &&& keys[i].eq_spec(&key)
            &&& forall|j: int| 0 <= j < i ==> !(#[trigger] keys[j]).eq_spec(&key)
        },
        index_of(keys, key) is None ==> forall|j: int|
            0 <= j < keys.len() ==> !(#[trigger] keys[j]).eq_spec(&key),
    decreases keys.len(),
{
    if keys.len() > 0 {
        lemma_index_of(keys.drop_last(), key);
        let init = keys.drop_last();
        assert(forall|j: int| 0 <= j < init.len() ==> init[j] == #[trigger] keys[j]);
    }
}

/// Where `key` first stands in `keys`.
pub fn find_key<K: PartialEq>(keys: &Vec<K>, key: &K) -> (found: Option<usize>)
    requires
        is_key::<K>(),
    ensures
        index_of(keys@, *key) == (match found {
            Some(i) => Some(i as int),
            None => None,
        }),
{
    proof {
        lemma_index_of(keys@, *key);
    }
    let mut i: usize = 0;
    while i < keys.len()
        invariant
            is_key::<K>(),
            i <= keys@.len(),
            forall|j: int| 0 <= j < i ==> !(#[trigger] keys@[j]).eq_spec(key),
        decreases keys@.len() - i,
    {
        if keys[i] == *key {
            proof {
                lemma_index_of(keys@, *key);
            }
            return Some(i);
        }
        i = i + 1;
    }
    None
}

/// Values are keys exactly where `==` on them is an equivalence that goes by what it compares;
/// numbers are.
pub proof fn lemma_keys<K: PartialEq>()
    ensures
        is_key::<K>() <==> {
            &&& K::obeys_eq_spec()
            &&& forall|a: K| #[trigger] a.eq_spec(&a)
            &&& forall|a: K, b: K| #[trigger] a.eq_spec(&b) ==> b.eq_spec(&a)
            &&& forall|a: K, b: K, c: K|
                #[trigger] a.eq_spec(&b) && #[trigger] b.eq_spec(&c) ==> a.eq_spec(&c)
        },
        is_key::<u64>(),
{
}

/// A key is found where it first stands, and not found where it does not.
pub proof fn lemma_found<K: PartialEq>(keys: Vec<K>, key: K, found: Option<usize>)
    requires
        call_ensures(find_key::<K>, (&keys, &key), found),
    ensures
        found matches Some(i) ==> {
            &&& i < keys@.len()
            &&& keys@[i as int].eq_spec(&key)
            &&& forall|j: int| 0 <= j < i ==> !(#[trigger] keys@[j]).eq_spec(&key)
        },
        found is None ==> forall|j: int|
            0 <= j < keys@.len() ==> !(#[trigger] keys@[j]).eq_spec(&key),
{
    lemma_index_of(keys@, key);
}

} // verus!
