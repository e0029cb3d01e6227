//! Labels of metrics and logs, and the keys that metrics are stored by.
use vstd::prelude::*;

use crate::monitor::text_map::{lemma_same_keys, TextMap};
use crate::text::text_of;

verus! {

/// Labels: values by name.
pub type Labels = TextMap<String>;

/// The labels as texts.
pub open spec fn label_texts(labels: Map<Seq<char>, String>) -> Map<Seq<char>, Seq<char>> {
    labels.map_values(|value: String| value@)
}

/// A label in a key.
pub open spec fn label_text(name: Seq<char>, value: Seq<char>) -> Seq<char> {
    name + "="@ + value
}

/// The labels of `names` in a key, separated by commas.
pub open spec fn labels_text(
    names: Seq<Seq<char>>,
    labels: Map<Seq<char>, Seq<char>>,
) -> Seq<char>
    decreases names.len(),
{
    if names.len() == 0 {
        Seq::empty()
    } else {
        let last = label_text(names.last(), labels[names.last()]);
        if names.len() == 1 {
            last
        } else {
            labels_text(names.drop_last(), labels) + ","@ + last
        }
    }
}

/// The key of a metric: its name, and its labels in braces where there are any.
pub open spec fn metric_key(
    name: Seq<char>,
    names: Seq<Seq<char>>,
    labels: Map<Seq<char>, Seq<char>>,
) -> Seq<char> {
    if names.len() == 0 {
        name
    } else {
        name + "{"@ + labels_text(names, labels) + "}"@
    }
}

/// The key of a metric with the given labels.
pub open spec fn key_of(name: Seq<char>, labels: Labels) -> Seq<char> {
    metric_key(name, labels.keys(), label_texts(labels@))
}

/// Metrics of the same name with the same labels have the same key, whatever the order
/// in which the labels were given.
pub proof fn lemma_key_follows_labels(name: Seq<char>, a: Labels, b: Labels)
    requires
        a.wf(),
        b.wf(),
        label_texts(a@) == label_texts(b@),
    ensures
        key_of(name, a) == key_of(name, b),
{
    assert(label_texts(a@).dom() =~= a@.dom());
    assert(label_texts(b@).dom() =~= b@.dom());
    lemma_same_keys(a, b);
}

/// None of the characters that a key puts between its parts is in the text.
pub open spec fn is_separable(text: Seq<char>) -> bool {
    forall|i: int|
        0 <= i < text.len() ==> {
            &&& #[trigger] text[i] != '{'
            &&& text[i] != '}'
            &&& text[i] != ','
            &&& text[i] != '='
        }
}

/// The names and the values of the labels can be told apart in a key.
pub open spec fn labels_separable(
    names: Seq<Seq<char>>,
    labels: Map<Seq<char>, Seq<char>>,
) -> bool {
    forall|i: int|
        0 <= i < names.len() ==> is_separable(#[trigger] names[i]) && is_separable(
            labels[names[i]],
        )
}

/// Texts around the first `c` are known by the whole.
proof fn lemma_split_first(a: Seq<char>, b: Seq<char>, c: char, x: Seq<char>, y: Seq<char>)
    requires
        forall|i: int| 0 <= i < a.len() ==> #[trigger] a[i] != c,
        forall|i: int| 0 <= i < x.len() ==> #[trigger] x[i] != c,
        a.push(c) + b == x.push(c) + y,
    ensures
        a == x,
        b == y,
{
    let s = a.push(c) + b;
    let t = x.push(c) + y;
    assert(s.len() == a.len() + 1 + b.len());
    assert(t.len() == x.len() + 1 + y.len());
    assert(s[a.len() as int] == c);
    assert(t[x.len() as int] == c);
    assert(a.len() == x.len()) by {
        if a.len() < x.len() {
            assert(t[a.len() as int] == x[a.len() as int]);
        }
        if x.len() < a.len() {
            assert(s[x.len() as int] == a[x.len() as int]);
        }
    }
    assert(a =~= x) by {
        assert forall|i: int| 0 <= i < a.len() implies a[i] == x[i] by {
            assert(s[i] == a[i]);
            assert(t[i] == x[i]);
        }
    }
    assert(b =~= y) by {
        assert forall|i: int| 0 <= i < b.len() implies b[i] == y[i] by {
            assert(s[a.len() + 1 + i] == b[i]);
            assert(t[x.len() + 1 + i] == y[i]);
        }
    }
}

/// Texts around the last `c` are known by the whole.
proof fn lemma_split_last(a: Seq<char>, b: Seq<char>, c: char, x: Seq<char>, y: Seq<char>)
    requires
        forall|i: int| 0 <= i < b.len() ==> #[trigger] b[i] != c,
        forall|i: int| 0 <= i < y.len() ==> #[trigger] y[i] != c,
        a.push(c) + b == x.push(c) + y,
    ensures
        a == x,
        b == y,
{
    let s = a.push(c) + b;
    let t = x.push(c) + y;
    assert(s.len() == a.len() + 1 + b.len());
    assert(t.len() == x.len() + 1 + y.len());
    assert(s[a.len() as int] == c);
    assert(t[x.len() as int] == c);
    assert(a.len() == x.len()) by {
        if a.len() < x.len() {
            assert(s[x.len() as int] == b[x.len() - a.len() - 1]);
        }
        if x.len() < a.len() {
            assert(t[a.len() as int] == y[a.len() - x.len() - 1]);
        }
    }
    assert(a =~= x) by {
        assert forall|i: int| 0 <= i < a.len() implies a[i] == x[i] by {
            assert(s[i] == a[i]);
            assert(t[i] == x[i]);
        }
    }
    assert(b =~= y) by {
        assert forall|i: int| 0 <= i < b.len() implies b[i] == y[i] by {
            assert(s[a.len() + 1 + i] == b[i]);
            assert(t[x.len() + 1 + i] == y[i]);
        }
    }
}

/// A label with its name and its value set apart.
proof fn lemma_label_shape(name: Seq<char>, value: Seq<char>)
    requires
        is_separable(name),
        is_separable(value),
    ensures
        label_text(name, value) == name.push('=') + value,
        forall|i: int|
            0 <= i < label_text(name, value).len() ==> #[trigger] label_text(name, value)[i] != ',',
{
    reveal_strlit("=");
    assert("="@ =~= seq!['=']);
    assert(label_text(name, value) =~= name.push('=') + value);
}

/// Labels are known by their text.
proof fn lemma_labels_known(
    names: Seq<Seq<char>>,
    labels: Map<Seq<char>, Seq<char>>,
    others: Seq<Seq<char>>,
    texts: Map<Seq<char>, Seq<char>>,
)
    requires
        names.len() > 0,
        others.len() > 0,
        labels_separable(names, labels),
        labels_separable(others, texts),
        labels_text(names, labels) == labels_text(others, texts),
    ensures
        names == others,
        forall|i: int| 0 <= i < names.len() ==> labels[#[trigger] names[i]] == texts[names[i]],
    decreases names.len(),
{
    reveal_strlit(",");
    assert(","@ =~= seq![',']);
    let name = names.last();
    let other = others.last();
    assert(is_separable(names[names.len() - 1]) && is_separable(labels[names[names.len() - 1]]));
    assert(is_separable(others[others.len() - 1]) && is_separable(
        texts[others[others.len() - 1]],
    ));
    lemma_label_shape(name, labels[name]);
    lemma_label_shape(other, texts[other]);
    let a = label_text(name, labels[name]);
    let b = label_text(other, texts[other]);
    let head = labels_text(names.drop_last(), labels);
    let front = labels_text(others.drop_last(), texts);
    if names.len() > 1 {
        assert(labels_text(names, labels) =~= head.push(',') + a);
        assert(labels_text(names, labels)[head.len() as int] == ',');
    }
    if others.len() > 1 {
        assert(labels_text(others, texts) =~= front.push(',') + b);
        assert(labels_text(others, texts)[front.len() as int] == ',');
    }
    if names.len() > 1 && others.len() > 1 {
        lemma_split_last(head, a, ',', front, b);
        let init = names.drop_last();
        let rest = others.drop_last();
        assert forall|i: int| 0 <= i < init.len() implies is_separable(#[trigger] init[i])
            && is_separable(labels[init[i]]) by {
            assert(init[i] == names[i]);
        }
        assert forall|i: int| 0 <= i < rest.len() implies is_separable(#[trigger] rest[i])
            && is_separable(texts[rest[i]]) by {
            assert(rest[i] == others[i]);
        }
        lemma_labels_known(init, labels, rest, texts);
        lemma_split_first(name, labels[name], '=', other, texts[other]);
        assert(names =~= init.push(name));
        assert(others =~= rest.push(other));
        assert forall|i: int| 0 <= i < names.len() implies labels[#[trigger] names[i]]
            == texts[names[i]] by {
            if i < init.len() {
                assert(init[i] == names[i]);
            }
        }
    } else {
        assert(names.len() == 1 && others.len() == 1) by {
            if names.len() > 1 {
                assert(b[head.len() as int] == ',');
            }
            if others.len() > 1 {
                assert(a[front.len() as int] == ',');
            }
        }
        lemma_split_first(name, labels[name], '=', other, texts[other]);
        assert(names =~= others);
    }
}

/// Where no name and no label holds one of the characters that a key puts between its
/// parts, metrics have the same key exactly where they have the same name and the same
/// labels.
pub proof fn lemma_key_known(name: Seq<char>, a: Labels, other: Seq<char>, b: Labels)
    requires
        a.wf(),
        b.wf(),
        is_separable(name),
        is_separable(other),
        labels_separable(a.keys(), label_texts(a@)),
        labels_separable(b.keys(), label_texts(b@)),
    ensures
        key_of(name, a) == key_of(other, b) <==> name == other && label_texts(a@) == label_texts(
            b@,
        ),
{
    if name == other && label_texts(a@) == label_texts(b@) {
        lemma_key_follows_labels(name, a, b);
    }
    if key_of(name, a) == key_of(other, b) {
        reveal_strlit("{");
        reveal_strlit("}");
        assert("{"@ =~= seq!['{']);
        assert("}"@ =~= seq!['}']);
        a.lemma_keys();
        b.lemma_keys();
        let inner = labels_text(a.keys(), label_texts(a@));
        let inside = labels_text(b.keys(), label_texts(b@));
        if a.keys().len() > 0 {
            assert(key_of(name, a) =~= name.push('{') + inner.push('}'));
            assert(key_of(name, a)[name.len() as int] == '{');
        }
        if b.keys().len() > 0 {
            assert(key_of(other, b) =~= other.push('{') + inside.push('}'));
            assert(key_of(other, b)[other.len() as int] == '{');
        }
        if a.keys().len() > 0 && b.keys().len() > 0 {
            lemma_split_first(name, inner.push('}'), '{', other, inside.push('}'));
            assert(inner =~= inner.push('}').drop_last());
            assert(inside =~= inside.push('}').drop_last());
            lemma_labels_known(a.keys(), label_texts(a@), b.keys(), label_texts(b@));
        } else if a.keys().len() > 0 {
            assert(other[name.len() as int] == '{');
        } else if b.keys().len() > 0 {
            assert(name[other.len() as int] == '{');
        }
        assert(a.keys() =~= b.keys());
        assert forall|key: Seq<char>| #[trigger] label_texts(a@).dom().contains(key) <==> label_texts(
            b@,
        ).dom().contains(key) by {
            assert(a.keys().contains(key) <==> a@.dom().contains(key));
            assert(b.keys().contains(key) <==> b@.dom().contains(key));
        }
        assert forall|key: Seq<char>| #[trigger] label_texts(a@).dom().contains(key) implies label_texts(
            a@,
        )[key] == label_texts(b@)[key] by {
            assert(a.keys().contains(key));
            let i = a.keys().index_of(key);
            assert(a.keys()[i] == key);
        }
        assert(label_texts(a@) =~= label_texts(b@));
    }
}

/// The key of a metric.
pub fn make_key(name: &str, labels: &Labels) -> (key: String)
    requires
        labels.wf(),
    ensures
        key@ == key_of(name@, *labels),
{
    if labels.is_empty() {
        return name.to_owned();
    }
    let ghost names = labels.keys();
    let ghost texts = label_texts(labels@);
    let mut text = "".to_owned();
    let n: usize = labels.len();
    let mut i: usize = 0;
    proof {
        reveal_strlit("");
        assert(text@ =~= labels_text(names.take(0), texts));
    }
    while i < n
        invariant
            labels.wf(),
            n == names.len(),
            names == labels.keys(),
            texts == label_texts(labels@),
            i <= n,
            text@ == labels_text(names.take(i as int), texts),
        decreases n - i,
    {
        let (label, value) = labels.entry(i);
        if i > 0 {
            text.append(",");
        }
        let mut last = text_of(label.as_str(), "=");
        last.append(value.as_str());
        text.append(last.as_str());
        proof {
            let now = names.take(i + 1);
            assert(now.drop_last() =~= names.take(i as int));
            assert(now.last() == names[i as int]);
            assert(last@ == label_text(now.last(), texts[now.last()]));
            assert(text@ =~= labels_text(now, texts));
        }
        i = i + 1;
    }
    proof {
        assert(names.take(i as int) =~= names);
    }
    let mut key = text_of(name, "{");
    key.append(text.as_str());
    key.append("}");
    key
}

/// A copy of labels.
pub fn dup_labels(labels: &Labels) -> (copy: Labels)
    requires
        labels.wf(),
    ensures
        copy.wf(),
        copy@ == labels@,
        copy.keys() == labels.keys(),
{
    let mut copy: Labels = TextMap::new();
    let ghost names = labels.keys();
    let n: usize = labels.len();
    let mut i: usize = 0;
    while i < n
        invariant
            labels.wf(),
            n == names.len(),
            names == labels.keys(),
            i <= n,
            copy.wf(),
            forall|key: Seq<char>| #[trigger]
                copy@.dom().contains(key) <==> names.take(i as int).contains(key),
            forall|key: Seq<char>| #[trigger]
                copy@.dom().contains(key) ==> copy@[key] == labels@[key],
        decreases n - i,
    {
        let (label, value) = labels.entry(i);
        let ghost before = copy@;
        copy.insert(label.clone(), value.clone());
        proof {
            let now = names.take(i + 1);
            assert(now =~= names.take(i as int).push(names[i as int]));
            assert forall|key: Seq<char>| #[trigger] copy@.dom().contains(key) <==> now.contains(
                key,
            ) by {
                if before.dom().contains(key) {
                    let j = names.take(i as int).index_of(key);
                    assert(now[j] == key);
                }
                if key == names[i as int] {
                    assert(now[i as int] == key);
                }
                if now.contains(key) && key != names[i as int] {
                    let j = now.index_of(key);
                    assert(names.take(i as int)[j] == key);
                }
            }
        }
        i = i + 1;
    }
    proof {
        assert(names.take(i as int) =~= names);
        labels.lemma_keys();
        assert(copy@ =~= labels@);
        lemma_same_keys(copy, *labels);
    }
    copy
}

/// The key of a metric without labels is its name; that of one with labels starts with the name
/// and an opening brace, ends with a closing one, and holds each label as its name, an equals
/// sign and its value.
pub proof fn lemma_key_shape(name: &str, labels: Labels, key: String)
    requires
        labels.wf(),
        call_ensures(make_key, (name, &labels), key),
    ensures
        labels@.dom() == Set::<Seq<char>>::empty() ==> key@ == name@,
        labels@.dom() != Set::<Seq<char>>::empty() ==> {
            &&& (name@ + "{"@).is_prefix_of(key@)
            &&& "}"@.is_suffix_of(key@)
        },
        forall|label: Seq<char>| #[trigger]
            labels@.dom().contains(label) ==> exists|i: int, j: int|
                0 <= i <= j <= key@.len() && #[trigger] key@.subrange(i, j) == label + "="@
                    + labels@[label]@,
{
    let names = labels.keys();
    let texts = label_texts(labels@);
    let inner = labels_text(names, texts);
    labels.lemma_keys();
    if names.len() > 0 {
        assert(labels@.dom().contains(names[0])) by {
            assert(names.contains(names[0]));
        }
        let head = name@ + "{"@;
        assert(key@ == head + inner + "}"@);
        assert(head =~= key@.subrange(0, head.len() as int));
        assert("}"@ =~= key@.subrange(key@.len() - "}"@.len(), key@.len() as int));
        assert forall|label: Seq<char>| #[trigger] labels@.dom().contains(label) implies exists|
            i: int,
            j: int,
        |
            0 <= i <= j <= key@.len() && #[trigger] key@.subrange(i, j) == label + "="@
                + labels@[label]@ by {
            assert(names.contains(label));
            let n = names.index_of(label);
            let (i, j) = lemma_label_in(names, texts, n);
            assert(key@.subrange(head.len() + i, head.len() + j) =~= inner.subrange(i, j));
            assert(texts[label] == labels@[label]@);
        }
    } else {
        assert(labels@.dom() =~= Set::<Seq<char>>::empty()) by {
            assert forall|label: Seq<char>| !labels@.dom().contains(label) by {
                assert(!names.contains(label));
            }
        }
    }
}

/// A label stands in the text of the labels.
proof fn lemma_label_in(
    names: Seq<Seq<char>>,
    labels: Map<Seq<char>, Seq<char>>,
    n: int,
) -> (place: (int, int))
    requires
        0 <= n < names.len(),
    ensures
        0 <= place.0 <= place.1 <= labels_text(names, labels).len(),
        labels_text(names, labels).subrange(place.0, place.1) == names[n] + "="@
            + labels[names[n]],
    decreases names.len(),
{
    let text = labels_text(names, labels);
    let last = label_text(names.last(), labels[names.last()]);
    if n == names.len() - 1 {
        assert(text.subrange(text.len() - last.len(), text.len() as int) =~= last);
        (text.len() - last.len(), text.len() as int)
    } else {
        let init = names.drop_last();
        let (i, j) = lemma_label_in(init, labels, n);
        assert(text.subrange(i, j) =~= labels_text(init, labels).subrange(i, j));
        (i, j)
    }
}

} // verus!
