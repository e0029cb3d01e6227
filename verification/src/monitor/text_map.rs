//! Maps from texts, kept in the order of their keys.
use vstd::prelude::*;

use crate::order::{
    compare_texts, lemma_text_order_total, lemma_text_order_transitive, text_order, Order,
};

verus! {

/// A map from texts.
#[derive(Debug)]
pub struct TextMap<T> {
    entries: Vec<(String, T)>,
}

/// `keys` come in strictly ascending order.
pub open spec fn ascending_texts(keys: Seq<Seq<char>>) -> bool {
    forall|i: int, j: int|
        #![trigger keys[i], keys[j]]
        0 <= i < j < keys.len() ==> text_order(keys[i], keys[j]) == Order::Less
}

/// The keys of `entries`.
pub open spec fn entry_keys<T>(entries: Seq<(String, T)>) -> Seq<Seq<char>> {
    entries.map_values(|entry: (String, T)| entry.0@)
}

/// The map that `entries` stand for.
pub open spec fn entry_map<T>(entries: Seq<(String, T)>) -> Map<Seq<char>, T> {
    Map::new(
        |key: Seq<char>| entry_keys(entries).contains(key),
        |key: Seq<char>| entries[entry_keys(entries).index_of(key)].1,
    )
}

impl<T> View for TextMap<T> {
    type V = Map<Seq<char>, T>;

    closed spec fn view(&self) -> Map<Seq<char>, T> {
        entry_map(self.entries@)
    }
}

/// Of two ascending lists of the same keys, the one is the other.
pub proof fn lemma_ascending_unique(a: Seq<Seq<char>>, b: Seq<Seq<char>>)
    requires
        ascending_texts(a),
        ascending_texts(b),
        forall|key: Seq<char>| #[trigger] a.contains(key) <==> b.contains(key),
    ensures
        a == b,
    decreases a.len(),
{
    if a.len() == 0 {
        if b.len() > 0 {
            assert(b.contains(b[0]));
            assert(a.contains(b[0]));
        }
        assert(a =~= b);
    } else {
        let key = a.last();
        assert(a.contains(key));
        assert(b.contains(key));
        let top = b.last();
        assert(b.contains(top));
        assert(a.contains(top));
        let i = choose|i: int| 0 <= i < a.len() && a[i] == top;
        let j = choose|j: int| 0 <= j < b.len() && b[j] == key;
        lemma_text_order_total(key, top);
        assert(key == top) by {
            if i < a.len() - 1 && j < b.len() - 1 {
                assert(text_order(top, key) == Order::Less);
                assert(text_order(key, top) == Order::Less);
            }
        }
        assert forall|k: Seq<char>| #[trigger] a.drop_last().contains(k) <==> b.drop_last().contains(
            k,
        ) by {
            lemma_drop_last_keys(a, k);
            lemma_drop_last_keys(b, k);
        }
        assert(ascending_texts(a.drop_last()));
        assert(ascending_texts(b.drop_last()));
        lemma_ascending_unique(a.drop_last(), b.drop_last());
        assert(a =~= a.drop_last().push(key));
        assert(b =~= b.drop_last().push(top));
    }
}

/// Without its last key an ascending list has the other keys.
proof fn lemma_drop_last_keys(keys: Seq<Seq<char>>, key: Seq<char>)
    requires
        ascending_texts(keys),
        keys.len() > 0,
    ensures
        keys.drop_last().contains(key) <==> keys.contains(key) && key != keys.last(),
{
    if keys.drop_last().contains(key) {
        let i = choose|i: int| 0 <= i < keys.drop_last().len() && keys.drop_last()[i] == key;
        assert(keys[i] == key);
        assert(text_order(keys[i], keys[keys.len() - 1]) == Order::Less);
        lemma_text_order_total(keys[i], keys.last());
    }
    if keys.contains(key) && key != keys.last() {
        let i = choose|i: int| 0 <= i < keys.len() && keys[i] == key;
        assert(keys.drop_last()[i] == key);
    }
}

/// In an ascending list each key stands once.
proof fn lemma_ascending_distinct(keys: Seq<Seq<char>>, i: int, j: int)
    requires
        ascending_texts(keys),
        0 <= i < keys.len(),
        0 <= j < keys.len(),
        keys[i] == keys[j],
    ensures
        i == j,
{
    lemma_text_order_total(keys[i], keys[j]);
}

/// What the map gives for the key of an entry is the value of that entry.
proof fn lemma_entry_at<T>(entries: Seq<(String, T)>, i: int)
    requires
        ascending_texts(entry_keys(entries)),
        0 <= i < entries.len(),
    ensures
        entry_map(entries).dom().contains(entries[i].0@),
        entry_map(entries)[entries[i].0@] == entries[i].1,
{
    let keys = entry_keys(entries);
    let key = entries[i].0@;
    assert(keys[i] == key);
    assert(keys.contains(key));
    let j = keys.index_of(key);
    lemma_ascending_distinct(keys, i, j);
}

impl<T> TextMap<T> {
    /// The keys, in ascending order.
    pub closed spec fn keys(&self) -> Seq<Seq<char>> {
        entry_keys(self.entries@)
    }

    /// The entries are in order.
    pub closed spec fn wf(&self) -> bool {
        ascending_texts(entry_keys(self.entries@))
    }

    /// The keys are those of the map, in ascending order.
    pub proof fn lemma_keys(&self)
        requires
            self.wf(),
        ensures
            ascending_texts(self.keys()),
            forall|key: Seq<char>| #[trigger] self.keys().contains(key) <==> self@.dom().contains(key),
    {
    }

    /// An empty map.
    pub fn new() -> (map: TextMap<T>)
        ensures
            map.wf(),
            map@ == Map::<Seq<char>, T>::empty(),
            map.keys() == Seq::<Seq<char>>::empty(),
    {
        let map = TextMap { entries: Vec::new() };
        assert(map.keys() =~= Seq::<Seq<char>>::empty());
        assert(map@ =~= Map::<Seq<char>, T>::empty());
        map
    }

    /// The number of keys.
    pub fn len(&self) -> (n: usize)
        ensures
            n == self.keys().len(),
    {
        self.entries.len()
    }

    /// Whether there is no key.
    pub fn is_empty(&self) -> (empty: bool)
        ensures
            empty == (self.keys().len() == 0),
    {
        self.entries.len() == 0
    }

    /// The key and the value of an entry.
    pub fn entry(&self, i: usize) -> (entry: (&String, &T))
        requires
            self.wf(),
            i < self.keys().len(),
        ensures
            entry.0@ == self.keys()[i as int],
            self@.dom().contains(self.keys()[i as int]),
            *entry.1 == self@[self.keys()[i as int]],
    {
        proof {
            lemma_entry_at(self.entries@, i as int);
        }
        (&self.entries[i].0, &self.entries[i].1)
    }

    /// Where `key` stands, or else where it belongs.
    fn search(&self, key: &str) -> (place: (usize, bool))
        requires
            self.wf(),
        ensures
            place.0 <= self.keys().len(),
            place.1 ==> place.0 < self.keys().len() && self.keys()[place.0 as int] == key@,
            !place.1 ==> !self.keys().contains(key@),
            forall|j: int|
                0 <= j < place.0 ==> text_order(#[trigger] self.keys()[j], key@) == Order::Less,
            !place.1 ==> forall|j: int|
                place.0 <= j < self.keys().len() ==> text_order(key@, #[trigger] self.keys()[j])
                    == Order::Less,
    {
        let mut i: usize = 0;
        while i < self.entries.len()
            invariant
                self.wf(),
                i <= self.entries@.len(),
                forall|j: int|
                    0 <= j < i ==> text_order(#[trigger] self.keys()[j], key@) == Order::Less,
            decreases self.entries@.len() - i,
        {
            proof {
                lemma_text_order_total(self.keys()[i as int], key@);
            }
            match compare_texts(self.entries[i].0.as_str(), key) {
                Order::Less => {},
                Order::Equal => {
                    return (i, true);
                },
                Order::Greater => {
                    proof {
                        self.lemma_apart(key@, i as int);
                    }
                    return (i, false);
                },
            }
            i = i + 1;
        }
        proof {
            self.lemma_apart(key@, i as int);
        }
        (i, false)
    }

    /// A key between two neighbours is none of the keys.
    proof fn lemma_apart(&self, key: Seq<char>, i: int)
        requires
            self.wf(),
            0 <= i <= self.keys().len(),
            forall|j: int| 0 <= j < i ==> text_order(#[trigger] self.keys()[j], key) == Order::Less,
            i < self.keys().len() ==> text_order(key, self.keys()[i]) == Order::Less,
        ensures
            !self.keys().contains(key),
            forall|j: int|
                i <= j < self.keys().len() ==> text_order(key, #[trigger] self.keys()[j])
                    == Order::Less,
    {
        assert forall|j: int| i <= j < self.keys().len() implies text_order(
            key,
            #[trigger] self.keys()[j],
        ) == Order::Less by {
            if i < j {
                lemma_text_order_transitive(key, self.keys()[i], self.keys()[j]);
            }
        }
        if self.keys().contains(key) {
            let j = choose|j: int| 0 <= j < self.keys().len() && self.keys()[j] == key;
            lemma_text_order_total(key, key);
        }
    }

    /// The value of a key.
    pub fn get(&self, key: &str) -> (value: Option<&T>)
        requires
            self.wf(),
        ensures
            value is Some <==> self@.dom().contains(key@),
            value matches Some(v) ==> *v == self@[key@],
    {
        let (i, found) = self.search(key);
        if found {
            proof {
                lemma_entry_at(self.entries@, i as int);
            }
            Some(&self.entries[i].1)
        } else {
            None
        }
    }

    /// Whether there is a value for a key.
    pub fn contains_key(&self, key: &str) -> (contains: bool)
        requires
            self.wf(),
        ensures
            contains == self@.dom().contains(key@),
    {
        self.get(key).is_some()
    }

    /// Sets the value of a key.
    pub fn insert(&mut self, key: String, value: T)
        requires
            old(self).wf(),
        ensures
            final(self).wf(),
            final(self)@ == old(self)@.insert(key@, value),
    {
        let ghost before = self.entries@;
        let (i, found) = self.search(key.as_str());
        if found {
            self.entries.remove(i);
            proof {
                lemma_removed(before, i as int);
            }
        }
        let ghost apart = self.entries@;
        let ghost added = (key, value);
        self.entries.insert(i, (key, value));
        proof {
            lemma_text_order_total(key@, key@);
            lemma_inserted(apart, i as int, added);
            assert(self@ =~= entry_map(before).insert(key@, value));
        }
    }

    /// Takes the value of a key out.
    pub fn remove(&mut self, key: &str) -> (value: Option<T>)
        requires
            old(self).wf(),
        ensures
            final(self).wf(),
            final(self)@ == old(self)@.remove(key@),
            value is Some <==> old(self)@.dom().contains(key@),
            value matches Some(v) ==> v == old(self)@[key@],
    {
        let ghost before = self.entries@;
        let (i, found) = self.search(key);
        if found {
            proof {
                lemma_entry_at(before, i as int);
                lemma_removed(before, i as int);
            }
            let (_, value) = self.entries.remove(i);
            Some(value)
        } else {
            assert(self@ =~= entry_map(before).remove(key@));
            None
        }
    }
}

/// Maps with the same keys list them in the same order, whatever was inserted first.
pub proof fn lemma_same_keys<T, U>(a: TextMap<T>, b: TextMap<U>)
    requires
        a.wf(),
        b.wf(),
        a@.dom() == b@.dom(),
    ensures
        a.keys() == b.keys(),
{
    a.lemma_keys();
    b.lemma_keys();
    assert forall|key: Seq<char>| #[trigger] a.keys().contains(key) <==> b.keys().contains(key) by {
        assert(a@.dom().contains(key) <==> b@.dom().contains(key));
    }
    lemma_ascending_unique(a.keys(), b.keys());
}

/// A new key in its place.
proof fn lemma_inserted<T>(entries: Seq<(String, T)>, i: int, entry: (String, T))
    requires
        ascending_texts(entry_keys(entries)),
        0 <= i <= entries.len(),
        forall|j: int|
            0 <= j < i ==> text_order(#[trigger] entry_keys(entries)[j], entry.0@) == Order::Less,
        forall|j: int|
            i <= j < entries.len() ==> text_order(entry.0@, #[trigger] entry_keys(entries)[j])
                == Order::Less,
    ensures
        ascending_texts(entry_keys(entries.insert(i, entry))),
        entry_map(entries.insert(i, entry)) == entry_map(entries).insert(entry.0@, entry.1),
{
    let now = entries.insert(i, entry);
    let keys = entry_keys(entries);
    assert(entry_keys(now) =~= keys.insert(i, entry.0@));
    assert forall|a: int, b: int|
        #![trigger entry_keys(now)[a], entry_keys(now)[b]]
        0 <= a < b < now.len() implies text_order(entry_keys(now)[a], entry_keys(now)[b])
        == Order::Less by {
        let x = if a < i {
            a
        } else {
            a - 1
        };
        let y = if b < i {
            b
        } else {
            b - 1
        };
        if a != i {
            assert(entry_keys(now)[a] == keys[x]);
        }
        if b != i {
            assert(entry_keys(now)[b] == keys[y]);
        }
    }
    let left = entry_map(now);
    let right = entry_map(entries).insert(entry.0@, entry.1);
    lemma_entry_at(now, i);
    assert forall|key: Seq<char>| #[trigger] left.dom().contains(key) <==> right.dom().contains(
        key,
    ) by {
        if left.dom().contains(key) {
            let a = entry_keys(now).index_of(key);
            if a != i {
                let x = if a < i {
                    a
                } else {
                    a - 1
                };
                assert(keys[x] == key);
            }
        }
        if keys.contains(key) {
            let x = keys.index_of(key);
            let a = if x < i {
                x
            } else {
                x + 1
            };
            assert(entry_keys(now)[a] == key);
        }
        if key == entry.0@ {
            assert(entry_keys(now)[i] == key);
        }
    }
    assert forall|key: Seq<char>| #[trigger] left.dom().contains(key) implies left[key]
        == right[key] by {
        let a = entry_keys(now).index_of(key);
        lemma_entry_at(now, a);
        if a != i {
            let x = if a < i {
                a
            } else {
                a - 1
            };
            lemma_entry_at(entries, x);
            lemma_text_order_total(keys[x], entry.0@);
        }
    }
    assert(left =~= right);
}

/// A key less.
proof fn lemma_removed<T>(entries: Seq<(String, T)>, i: int)
    requires
        ascending_texts(entry_keys(entries)),
        0 <= i < entries.len(),
    ensures
        ascending_texts(entry_keys(entries.remove(i))),
        entry_map(entries.remove(i)) == entry_map(entries).remove(entries[i].0@),
        forall|j: int|
            0 <= j < i ==> text_order(
                #[trigger] entry_keys(entries.remove(i))[j],
                entries[i].0@,
            ) == Order::Less,
        forall|j: int|
            i <= j < entries.len() - 1 ==> text_order(
                entries[i].0@,
                #[trigger] entry_keys(entries.remove(i))[j],
            ) == Order::Less,
{
    let now = entries.remove(i);
    let keys = entry_keys(entries);
    assert(entry_keys(now) =~= keys.remove(i));
    let gone = entries[i].0@;
    assert(keys[i] == gone);
    assert forall|a: int, b: int|
        #![trigger entry_keys(now)[a], entry_keys(now)[b]]
        0 <= a < b < now.len() implies text_order(entry_keys(now)[a], entry_keys(now)[b])
        == Order::Less by {
        let x = if a < i {
            a
        } else {
            a + 1
        };
        let y = if b < i {
            b
        } else {
            b + 1
        };
        assert(entry_keys(now)[a] == keys[x]);
        assert(entry_keys(now)[b] == keys[y]);
    }
    assert forall|j: int| 0 <= j < i implies text_order(#[trigger] entry_keys(now)[j], gone)
        == Order::Less by {
        assert(entry_keys(now)[j] == keys[j]);
    }
    assert forall|j: int| i <= j < entries.len() - 1 implies text_order(
        gone,
        #[trigger] entry_keys(now)[j],
    ) == Order::Less by {
        assert(entry_keys(now)[j] == keys[j + 1]);
    }
    let left = entry_map(now);
    let right = entry_map(entries).remove(gone);
    assert forall|key: Seq<char>| #[trigger] left.dom().contains(key) <==> right.dom().contains(
        key,
    ) by {
        if left.dom().contains(key) {
            let a = entry_keys(now).index_of(key);
            let x = if a < i {
                a
            } else {
                a + 1
            };
            assert(keys[x] == key);
            lemma_text_order_total(keys[x], gone);
        }
        if keys.contains(key) && key != gone {
            let x = keys.index_of(key);
            let a = if x < i {
                x
            } else {
                x - 1
            };
            assert(entry_keys(now)[a] == key);
        }
    }
    assert forall|key: Seq<char>| #[trigger] left.dom().contains(key) implies left[key]
        == right[key] by {
        let a = entry_keys(now).index_of(key);
        let x = if a < i {
            a
        } else {
            a + 1
        };
        lemma_entry_at(now, a);
        lemma_entry_at(entries, x);
    }
    assert(left =~= right);
}

} // verus!
