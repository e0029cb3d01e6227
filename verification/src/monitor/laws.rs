//! What the monitor keeps, gives back and forgets.
use std::ops::Add;
use std::time::SystemTime;

use vstd::prelude::*;
use vstd::seq_lib::{to_multiset_build, to_multiset_contains, to_multiset_len};

use crate::monitor::clock::{epoch_millis, epoch_nanos, millis_at};
use crate::monitor::history::{at_time, sort_by_time, time_sorted};
use crate::monitor::labels::{key_of, Labels};
use crate::monitor::log_collector::{of_level, LogEntry, LogRecord};
use crate::monitor::metrics::{
    recorded, samples_since, Metric, MetricEntry, MetricKind, MetricSample, MetricSnapshot,
};
use crate::monitor::processor::{
    calls_before, find_processor, first_with_id, has_room, lemma_first_with_id, make_processor_id,
    processor_views, timed, Processor, ProcessorInfo, StageStats, Work,
};
use crate::monitor::registry::{
    active_count, counted, current_metrics, ended, incremented, logged, named_samples, opt_text,
    ref_views, staying, updated, with_processor, with_sample, MetricsRegistry, NodeOverview,
    Registry,
};
use crate::monitor::server::{history_page, logs_page};
use crate::monitor::store::{newest, RingBuffer};
use crate::order::lemma_text_order_total;
use crate::text::{decimal, lemma_decimal_reads_back, read_digits};

verus! {

/// A filtered list holds the items that pass, and no others.
proof fn lemma_filter_member<A>(items: Seq<A>, keep: spec_fn(A) -> bool, item: A)
    ensures
        items.filter(keep).contains(item) <==> items.contains(item) && keep(item),
    decreases items.len(),
{
    reveal(Seq::filter);
    if items.len() > 0 {
        let init = items.drop_last();
        let before = init.filter(keep);
        let after = items.filter(keep);
        lemma_filter_member(init, keep, item);
        if after.contains(item) {
            let i = choose|i: int| 0 <= i < after.len() && after[i] == item;
            if i < before.len() {
                assert(before[i] == item);
                let j = choose|j: int| 0 <= j < init.len() && init[j] == item;
                assert(items[j] == item);
            } else {
                assert(items[items.len() - 1] == item);
            }
        }
        if items.contains(item) && keep(item) {
            let j = choose|j: int| 0 <= j < items.len() && items[j] == item;
            if j < init.len() {
                assert(init[j] == item);
                let i = choose|i: int| 0 <= i < before.len() && before[i] == item;
                assert(after[i] == item);
            } else {
                assert(after[after.len() - 1] == item);
            }
        }
    }
}

/// Where all items pass, a filtered list is the list.
proof fn lemma_filter_all<A>(items: Seq<A>, keep: spec_fn(A) -> bool)
    requires
        forall|i: int| 0 <= i < items.len() ==> keep(#[trigger] items[i]),
    ensures
        items.filter(keep) == items,
    decreases items.len(),
{
    reveal(Seq::filter);
    if items.len() > 0 {
        let init = items.drop_last();
        assert forall|i: int| 0 <= i < init.len() implies keep(#[trigger] init[i]) by {
            assert(init[i] == items[i]);
        }
        lemma_filter_all(init, keep);
        assert(keep(items[items.len() - 1]));
        assert(items =~= init.push(items.last()));
    }
}

/// The newest of some items are the last of them: as many as asked for, or all where there are
/// fewer, in their order.
pub proof fn lemma_newest<T>(items: Seq<T>, n: nat)
    ensures
        newest(items, n).len() == if n < items.len() {
            n
        } else {
            items.len()
        },
        forall|i: int|
            0 <= i < newest(items, n).len() ==> #[trigger] newest(items, n)[i] == items[items.len()
                - newest(items, n).len() + i],
{
}

/// What a buffer gives as its recent items are the last that it holds, in their order.
pub proof fn lemma_recent<T>(buffer: RingBuffer<T>, n: usize, items: Vec<&T>)
    requires
        call_ensures(RingBuffer::<T>::recent, (&buffer, n), items),
    ensures
        items@.len() == if n < buffer@.len() {
            n as nat
        } else {
            buffer@.len()
        },
        forall|i: int|
            0 <= i < items@.len() ==> *(#[trigger] items@[i]) == buffer@[buffer@.len() - items@.len()
                + i],
{
}

/// The samples of a history are those that are not older than `since`.
proof fn lemma_since_filter<V>(samples: Seq<MetricSample<V>>, since: i64)
    ensures
        samples_since(samples, since) == samples.filter(
            |sample: MetricSample<V>| sample.timestamp >= since,
        ),
    decreases samples.len(),
{
    reveal(Seq::filter);
    if samples.len() > 0 {
        lemma_since_filter(samples.drop_last(), since);
    }
}

/// A sample is in the history since a time exactly where it is held and not older than that
/// time. The history keeps the order and the number of the samples: it is all of them where
/// none is older, and what comes before a sample of it in the history comes before it among
/// those held.
pub proof fn lemma_samples_since<V>(samples: Seq<MetricSample<V>>, since: i64)
    ensures
        forall|sample: MetricSample<V>| #[trigger]
            samples_since(samples, since).contains(sample) <==> samples.contains(sample)
                && sample.timestamp >= since,
        (forall|i: int| 0 <= i < samples.len() ==> (#[trigger] samples[i]).timestamp >= since)
            ==> samples_since(samples, since) == samples,
        samples_since(samples, since) == samples.filter(
            |sample: MetricSample<V>| sample.timestamp >= since,
        ),
{
    let keep = |sample: MetricSample<V>| sample.timestamp >= since;
    lemma_since_filter(samples, since);
    assert forall|sample: MetricSample<V>| #[trigger]
        samples_since(samples, since).contains(sample) <==> samples.contains(sample)
            && sample.timestamp >= since by {
        lemma_filter_member(samples, keep, sample);
    }
    if forall|i: int| 0 <= i < samples.len() ==> (#[trigger] samples[i]).timestamp >= since {
        lemma_filter_all(samples, keep);
    }
}

/// The history of a metric since a time holds its samples that are not older, and all of them
/// where none is older; a history that goes further back holds more.
pub proof fn lemma_history_since<V: Copy>(
    entry: MetricEntry<V>,
    since: i64,
    samples: Vec<MetricSample<V>>,
    later: i64,
    fewer: Vec<MetricSample<V>>,
)
    requires
        call_ensures(MetricEntry::<V>::history_since, (&entry, since), samples),
        call_ensures(MetricEntry::<V>::history_since, (&entry, later), fewer),
        since <= later,
    ensures
        forall|sample: MetricSample<V>| #[trigger]
            samples@.contains(sample) <==> entry.samples@.contains(sample) && sample.timestamp
                >= since,
        (forall|i: int|
            0 <= i < entry.samples@.len() ==> (#[trigger] entry.samples@[i]).timestamp >= since)
            ==> samples@ == entry.samples@,
        fewer@ == samples@.filter(|sample: MetricSample<V>| sample.timestamp >= later),
{
    lemma_samples_since(entry.samples@, since);
    lemma_samples_since(entry.samples@, later);
    lemma_since_twice(entry.samples@, since, later);
    lemma_since_filter(samples@, later);
}

/// The history since a time of a longer history is the history since that time.
proof fn lemma_since_twice<V>(samples: Seq<MetricSample<V>>, since: i64, later: i64)
    requires
        since <= later,
    ensures
        samples_since(samples_since(samples, since), later) == samples_since(samples, later),
    decreases samples.len(),
{
    if samples.len() > 0 {
        let before = samples_since(samples.drop_last(), since);
        lemma_since_twice(samples.drop_last(), since, later);
        if samples.last().timestamp >= since {
            assert(before.push(samples.last()).drop_last() =~= before);
        }
    }
}

/// The newest sample is the last one, where there is one.
pub proof fn lemma_latest<V: Copy>(
    entry: MetricEntry<V>,
    value: Option<V>,
    timestamp: Option<i64>,
)
    requires
        call_ensures(MetricEntry::<V>::latest_value, (&entry,), value),
        call_ensures(MetricEntry::<V>::latest_timestamp, (&entry,), timestamp),
    ensures
        entry.samples@.len() == 0 ==> value is None && timestamp is None,
        entry.samples@.len() > 0 ==> value == Some(entry.samples@.last().value) && timestamp
            == Some(entry.samples@.last().timestamp),
{
}

/// Recording keeps everything of a metric but its samples: the new one comes last, behind the
/// newest of those that were held, and only a full metric gives up one, its oldest.
pub proof fn lemma_recorded<V>(metric: Metric<V>, timestamp: i64, value: V)
    requires
        metric.bound > 0,
        metric.samples.len() <= metric.bound,
    ensures
        ({
            let after = recorded(metric, timestamp, value);
            &&& after.name == metric.name
            &&& after.kind == metric.kind
            &&& after.labels == metric.labels
            &&& after.bound == metric.bound
            &&& after.samples.last() == (MetricSample { timestamp, value })
            &&& metric.samples.len() < metric.bound ==> after.samples.drop_last() == metric.samples
            &&& metric.samples.len() == metric.bound ==> after.samples.drop_last()
                == metric.samples.skip(1)
        }),
{
    let after = recorded(metric, timestamp, value);
    if metric.samples.len() < metric.bound {
        assert(after.samples.drop_last() =~= metric.samples);
    } else {
        assert(after.samples.drop_last() =~= metric.samples.skip(1));
    }
}

/// A snapshot of a metric shows its name, kind and labels, and its newest sample.
pub proof fn lemma_snapshot<V: Copy>(entry: MetricEntry<V>, snapshot: MetricSnapshot<V>)
    requires
        call_ensures(MetricSnapshot::<V>::of, (&entry,), snapshot),
    ensures
        snapshot.name@ == entry.name@,
        snapshot.kind == entry.kind,
        snapshot.labels@ == entry.labels@,
        entry.samples@.len() == 0 ==> snapshot.value is None && snapshot.timestamp is None,
        entry.samples@.len() > 0 ==> snapshot.value == Some(entry.samples@.last().value)
            && snapshot.timestamp == Some(entry.samples@.last().timestamp),
{
}

/// A sample is of the given time.
pub open spec fn of_time<V>(time: i64) -> spec_fn(MetricSample<V>) -> bool {
    |sample: MetricSample<V>| sample.timestamp == time
}

/// The samples of a time are counted as they are among all samples.
proof fn lemma_at_time_counts<V>(samples: Seq<MetricSample<V>>, sample: MetricSample<V>)
    ensures
        at_time(samples, sample.timestamp).to_multiset().count(sample)
            == samples.to_multiset().count(sample),
    decreases samples.len(),
{
    broadcast use vstd::multiset::group_multiset_axioms;

    if samples.len() > 0 {
        let init = samples.drop_last();
        lemma_at_time_counts(init, sample);
        assert(samples =~= init.push(samples.last()));
        to_multiset_build(init, samples.last());
        to_multiset_build(at_time(init, sample.timestamp), samples.last());
    } else {
        assert(samples =~= Seq::empty());
    }
}

/// The samples of a time are those of that time, in their order.
proof fn lemma_at_time_filter<V>(samples: Seq<MetricSample<V>>, time: i64)
    ensures
        at_time(samples, time) == samples.filter(of_time(time)),
    decreases samples.len(),
{
    reveal(Seq::filter);
    if samples.len() > 0 {
        lemma_at_time_filter(samples.drop_last(), time);
    }
}

/// Sorting by time gives the same samples, each as often, in the order of their times; those of
/// the same time stay in the order they had.
pub proof fn lemma_sorted<V>(samples: Seq<MetricSample<V>>, sorted: Seq<MetricSample<V>>)
    requires
        time_sorted(samples, sorted),
    ensures
        sorted.to_multiset() == samples.to_multiset(),
        sorted.len() == samples.len(),
        forall|i: int, j: int|
            #![trigger sorted[i], sorted[j]]
            0 <= i < j < sorted.len() ==> sorted[i].timestamp <= sorted[j].timestamp,
        forall|time: i64|
            sorted.filter(#[trigger] of_time(time))
                == samples.filter(of_time(time)),
        forall|sample: MetricSample<V>| #[trigger]
            sorted.contains(sample) <==> samples.contains(sample),
{
    assert forall|sample: MetricSample<V>|
        sorted.to_multiset().count(sample) == samples.to_multiset().count(sample) by {
        lemma_at_time_counts(sorted, sample);
        lemma_at_time_counts(samples, sample);
        assert(at_time(sorted, sample.timestamp) == at_time(samples, sample.timestamp));
    }
    assert(sorted.to_multiset() =~= samples.to_multiset());
    to_multiset_len(sorted);
    to_multiset_len(samples);
    assert forall|time: i64|
        sorted.filter(#[trigger] of_time(time))
            == samples.filter(of_time(time)) by {
        lemma_at_time_filter(sorted, time);
        lemma_at_time_filter(samples, time);
        assert(at_time(sorted, time) == at_time(samples, time));
    }
    assert forall|sample: MetricSample<V>| #[trigger] sorted.contains(sample) <==> samples.contains(
        sample,
    ) by {
        to_multiset_contains(sorted, sample);
        to_multiset_contains(samples, sample);
    }
}

/// [`sort_by_time`] sorts.
pub proof fn lemma_sort_by_time<V: Copy>(
    samples: Vec<MetricSample<V>>,
    sorted: Vec<MetricSample<V>>,
)
    requires
        call_ensures(sort_by_time::<V>, (&samples,), sorted),
    ensures
        sorted@.to_multiset() == samples@.to_multiset(),
        sorted@.len() == samples@.len(),
        forall|i: int, j: int|
            #![trigger sorted@[i], sorted@[j]]
            0 <= i < j < sorted@.len() ==> sorted@[i].timestamp <= sorted@[j].timestamp,
        forall|time: i64|
            sorted@.filter(#[trigger] of_time(time))
                == samples@.filter(of_time(time)),
{
    lemma_sorted(samples@, sorted@);
}

/// How often a sample is held by the metrics of a name, among those of `keys`.
pub open spec fn held_count<V>(
    metrics: Map<Seq<char>, Metric<V>>,
    keys: Seq<Seq<char>>,
    name: Seq<char>,
    sample: MetricSample<V>,
) -> nat
    decreases keys.len(),
{
    if keys.len() == 0 {
        0
    } else {
        held_count(metrics, keys.drop_last(), name, sample) + if metrics[keys.last()].name == name {
            metrics[keys.last()].samples.to_multiset().count(sample)
        } else {
            0
        }
    }
}

/// A history since a time holds a sample that is not older as often as it is held, and an older
/// one not at all.
proof fn lemma_since_counts<V>(
    samples: Seq<MetricSample<V>>,
    since: i64,
    sample: MetricSample<V>,
)
    ensures
        samples_since(samples, since).to_multiset().count(sample) == if sample.timestamp >= since {
            samples.to_multiset().count(sample)
        } else {
            0
        },
    decreases samples.len(),
{
    broadcast use vstd::multiset::group_multiset_axioms;

    if samples.len() > 0 {
        let init = samples.drop_last();
        lemma_since_counts(init, since, sample);
        assert(samples =~= init.push(samples.last()));
        to_multiset_build(init, samples.last());
        to_multiset_build(samples_since(init, since), samples.last());
    } else {
        to_multiset_contains(samples, sample);
        to_multiset_contains(samples_since(samples, since), sample);
    }
}

/// Items of two lists, one after the other, are counted in both.
proof fn lemma_add_counts<A>(a: Seq<A>, b: Seq<A>, item: A)
    ensures
        (a + b).to_multiset().count(item) == a.to_multiset().count(item) + b.to_multiset().count(
            item,
        ),
    decreases b.len(),
{
    broadcast use vstd::multiset::group_multiset_axioms;

    if b.len() > 0 {
        let init = b.drop_last();
        lemma_add_counts(a, init, item);
        assert(a + b =~= (a + init).push(b.last()));
        assert(b =~= init.push(b.last()));
        to_multiset_build(a + init, b.last());
        to_multiset_build(init, b.last());
    } else {
        assert(a + b =~= a);
        to_multiset_contains(b, item);
    }
}

/// The samples of the metrics of a name are counted as they are held.
proof fn lemma_named_counts<V>(
    metrics: Map<Seq<char>, Metric<V>>,
    keys: Seq<Seq<char>>,
    name: Seq<char>,
    since: i64,
    sample: MetricSample<V>,
)
    ensures
        named_samples(metrics, keys, name, since).to_multiset().count(sample) == if sample.timestamp
            >= since {
            held_count(metrics, keys, name, sample)
        } else {
            0
        },
    decreases keys.len(),
{
    broadcast use vstd::multiset::group_multiset_axioms;

    if keys.len() > 0 {
        let before = named_samples(metrics, keys.drop_last(), name, since);
        let metric = metrics[keys.last()];
        lemma_named_counts(metrics, keys.drop_last(), name, since, sample);
        if metric.name == name {
            lemma_since_counts(metric.samples, since, sample);
            lemma_add_counts(before, samples_since(metric.samples, since), sample);
        }
    } else {
        to_multiset_contains(named_samples(metrics, keys, name, since), sample);
    }
}

/// A sample is held where a metric of the name holds it.
proof fn lemma_held<V>(
    metrics: Map<Seq<char>, Metric<V>>,
    keys: Seq<Seq<char>>,
    name: Seq<char>,
    sample: MetricSample<V>,
)
    ensures
        held_count(metrics, keys, name, sample) > 0 <==> exists|key: Seq<char>| #[trigger]
            keys.contains(key) && metrics[key].name == name && metrics[key].samples.contains(
                sample,
            ),
    decreases keys.len(),
{
    if keys.len() > 0 {
        let init = keys.drop_last();
        let last = keys.last();
        lemma_held(metrics, init, name, sample);
        to_multiset_contains(metrics[last].samples, sample);
        assert(keys[keys.len() - 1] == last);
        assert(keys.contains(last));
        if held_count(metrics, init, name, sample) > 0 {
            let key = choose|key: Seq<char>| #[trigger]
                init.contains(key) && metrics[key].name == name && metrics[key].samples.contains(
                    sample,
                );
            let i = choose|i: int| 0 <= i < init.len() && init[i] == key;
            assert(keys[i] == key);
            assert(keys.contains(key));
        }
        if exists|key: Seq<char>| #[trigger]
            keys.contains(key) && metrics[key].name == name && metrics[key].samples.contains(
                sample,
            ) {
            let key = choose|key: Seq<char>| #[trigger]
                keys.contains(key) && metrics[key].name == name && metrics[key].samples.contains(
                    sample,
                );
            let i = choose|i: int| 0 <= i < keys.len() && keys[i] == key;
            if i < init.len() {
                assert(init[i] == key);
                assert(init.contains(key));
            }
        }
    }
}

/// The history of a name since a time holds the samples of all metrics of that name that are
/// not older, each as often as it is held, and no others, in the order of their times.
pub proof fn lemma_metric_history<V: Copy + Default + Add<Output = V>>(
    registry: MetricsRegistry<V>,
    name: &str,
    since: i64,
    samples: Vec<MetricSample<V>>,
)
    requires
        registry.wf(),
        call_ensures(MetricsRegistry::<V>::metric_history, (&registry, name, since), samples),
    ensures
        forall|i: int, j: int|
            #![trigger samples@[i], samples@[j]]
            0 <= i < j < samples@.len() ==> samples@[i].timestamp <= samples@[j].timestamp,
        forall|sample: MetricSample<V>| #[trigger]
            samples@.contains(sample) <==> sample.timestamp >= since && exists|key: Seq<char>|
                #[trigger] registry@.metrics.dom().contains(key) && registry@.metrics[key].name
                    == name@ && registry@.metrics[key].samples.contains(sample),
        forall|sample: MetricSample<V>|
            sample.timestamp >= since ==> #[trigger] samples@.to_multiset().count(sample)
                == held_count(registry@.metrics, registry.metric_keys(), name@, sample),
{
    let metrics = registry@.metrics;
    let keys = registry.metric_keys();
    let found = named_samples(metrics, keys, name@, since);
    registry.lemma_metric_keys();
    lemma_sorted(found, samples@);
    assert forall|sample: MetricSample<V>| #[trigger]
        samples@.contains(sample) <==> sample.timestamp >= since && exists|key: Seq<char>|
            #[trigger] metrics.dom().contains(key) && metrics[key].name == name@
                && metrics[key].samples.contains(sample) by {
        lemma_named_counts(metrics, keys, name@, since, sample);
        lemma_held(metrics, keys, name@, sample);
        to_multiset_contains(samples@, sample);
        if held_count(metrics, keys, name@, sample) > 0 {
            let key = choose|key: Seq<char>| #[trigger]
                keys.contains(key) && metrics[key].name == name@ && metrics[key].samples.contains(
                    sample,
                );
            assert(metrics.dom().contains(key));
        }
        if exists|key: Seq<char>| #[trigger]
            metrics.dom().contains(key) && metrics[key].name == name@
                && metrics[key].samples.contains(sample) {
            let key = choose|key: Seq<char>| #[trigger]
                metrics.dom().contains(key) && metrics[key].name == name@
                    && metrics[key].samples.contains(sample);
            assert(keys.contains(key));
        }
    }
    assert forall|sample: MetricSample<V>|
        sample.timestamp >= since implies #[trigger] samples@.to_multiset().count(sample)
        == held_count(metrics, keys, name@, sample) by {
        lemma_named_counts(metrics, keys, name@, since, sample);
    }
}

/// A page of a history from no given time on holds the samples of the name from the epoch on.
pub proof fn lemma_history_page<V: Copy + Default + Add<Output = V>>(
    registry: MetricsRegistry<V>,
    name: &str,
    since: Option<i64>,
    samples: Vec<MetricSample<V>>,
)
    requires
        registry.wf(),
        call_ensures(history_page::<V>, (&registry, name, since), samples),
    ensures
        forall|i: int, j: int|
            #![trigger samples@[i], samples@[j]]
            0 <= i < j < samples@.len() ==> samples@[i].timestamp <= samples@[j].timestamp,
        forall|sample: MetricSample<V>|
            #[trigger] samples@.to_multiset().count(sample) == if sample.timestamp >= (match since {
                Some(since) => since,
                None => 0i64,
            }) {
                held_count(registry@.metrics, registry.metric_keys(), name@, sample)
            } else {
                0
            },
{
    let from = match since {
        Some(since) => since,
        None => 0i64,
    };
    let metrics = registry@.metrics;
    let keys = registry.metric_keys();
    lemma_sorted(named_samples(metrics, keys, name@, from), samples@);
    assert forall|sample: MetricSample<V>|
        #[trigger] samples@.to_multiset().count(sample) == if sample.timestamp >= from {
            held_count(metrics, keys, name@, sample)
        } else {
            0
        } by {
        lemma_named_counts(metrics, keys, name@, from, sample);
    }
}

/// The entries of a level are those of that level, in their order.
proof fn lemma_level_filter(logs: Seq<LogRecord>, level: Seq<char>)
    ensures
        of_level(logs, level) == logs.filter(|entry: LogRecord| entry.level == level),
    decreases logs.len(),
{
    reveal(Seq::filter);
    if logs.len() > 0 {
        lemma_level_filter(logs.drop_last(), level);
    }
}

/// `entries` are the last of `logs`, at most `limit` of them.
pub open spec fn are_last(entries: Seq<&LogEntry>, logs: Seq<LogRecord>, limit: nat) -> bool {
    &&& entries.len() == if limit < logs.len() {
        limit
    } else {
        logs.len()
    }
    &&& forall|i: int|
        0 <= i < entries.len() ==> (*(#[trigger] entries[i]))@ == logs[logs.len() - entries.len()
            + i]
}

/// The recent log entries are the last of those held, or of those held of the given level, in
/// their order: as many as asked for, or all where there are fewer.
pub proof fn lemma_recent_logs<V: Copy + Default + Add<Output = V>>(
    registry: MetricsRegistry<V>,
    limit: usize,
    level: Option<&str>,
    entries: Vec<&LogEntry>,
)
    requires
        call_ensures(MetricsRegistry::<V>::recent_logs, (&registry, limit, level), entries),
    ensures
        level is None ==> are_last(entries@, registry@.logs, limit as nat),
        level matches Some(level) ==> are_last(
            entries@,
            registry@.logs.filter(|entry: LogRecord| entry.level == level@),
            limit as nat,
        ),
{
    let views = ref_views(entries@);
    assert(views.len() == entries@.len());
    assert forall|i: int| 0 <= i < entries@.len() implies (*(#[trigger] entries@[i]))@
        == views[i] by {}
    if let Some(level) = level {
        lemma_level_filter(registry@.logs, level@);
        lemma_newest(of_level(registry@.logs, level@), limit as nat);
    } else {
        lemma_newest(registry@.logs, limit as nat);
    }
}

/// A page of log entries holds the last of them, of the given level, a hundred where no number
/// is given.
pub proof fn lemma_logs_page<V: Copy + Default + Add<Output = V>>(
    registry: MetricsRegistry<V>,
    limit: Option<usize>,
    level: Option<&str>,
    entries: Vec<&LogEntry>,
)
    requires
        call_ensures(logs_page::<V>, (&registry, limit, level), entries),
    ensures
        ({
            let n = match limit {
                Some(limit) => limit as nat,
                None => 100,
            };
            match level {
                None => are_last(entries@, registry@.logs, n),
                Some(level) => are_last(
                    entries@,
                    registry@.logs.filter(|entry: LogRecord| entry.level == level@),
                    n,
                ),
            }
        }),
{
    let n = match limit {
        Some(limit) => limit as nat,
        None => 100,
    };
    let views = ref_views(entries@);
    assert(views.len() == entries@.len());
    assert forall|i: int| 0 <= i < entries@.len() implies (*(#[trigger] entries@[i]))@
        == views[i] by {}
    if let Some(level) = level {
        lemma_level_filter(registry@.logs, level@);
        lemma_newest(of_level(registry@.logs, level@), n);
    } else {
        lemma_newest(registry@.logs, n);
    }
}

/// `after` is `before` with one more log entry, which comes last; a thousand are kept, and only
/// the oldest is given up for it. Nothing else changes.
pub open spec fn entry_logged<V>(before: Registry<V>, after: Registry<V>, entry: LogRecord) -> bool {
    &&& after == (Registry { logs: after.logs, ..before })
    &&& after.logs.len() > 0
    &&& after.logs.last() == entry
    &&& after.logs.drop_last() == if before.logs.len() < 1000 {
        before.logs
    } else {
        before.logs.skip(1)
    }
}

/// A new log entry is kept.
pub proof fn lemma_logged<V>(registry: Registry<V>, entry: LogRecord)
    requires
        registry.logs.len() <= 1000,
    ensures
        entry_logged(registry, logged(registry, entry), entry),
{
    let after = logged(registry, entry);
    if registry.logs.len() < 1000 {
        assert(after.logs.drop_last() =~= registry.logs);
    } else {
        assert(after.logs.drop_last() =~= registry.logs.skip(1));
    }
}

/// What is logged is kept as the newest entry, with the given time or a time of the clock.
pub proof fn lemma_log<V: Copy + Default + Add<Output = V>>(
    now: i64,
    level: &str,
    stage: &str,
    message: &str,
    labels: Labels,
)
    ensures
        forall|r: &mut MetricsRegistry<V>|
            (*r).wf() && #[trigger] call_ensures(
                MetricsRegistry::<V>::log_at,
                (r, now, level, stage, message, labels),
                (),
            ) ==> entry_logged(
                (*r)@,
                (*final(r))@,
                (LogRecord {
                    timestamp: now,
                    level: level@,
                    stage: stage@,
                    message: message@,
                    labels: labels@,
                }),
            ),
        forall|r: &mut MetricsRegistry<V>|
            (*r).wf() && #[trigger] call_ensures(
                MetricsRegistry::<V>::log,
                (r, level, stage, message, labels),
                (),
            ) ==> exists|time: SystemTime|
                entry_logged(
                    (*r)@,
                    (*final(r))@,
                    (LogRecord {
                        timestamp: #[trigger] epoch_millis(time),
                        level: level@,
                        stage: stage@,
                        message: message@,
                        labels: labels@,
                    }),
                ),
{
    assert forall|r: &mut MetricsRegistry<V>|
        (*r).wf() && #[trigger] call_ensures(
            MetricsRegistry::<V>::log_at,
            (r, now, level, stage, message, labels),
            (),
        ) implies entry_logged(
        (*r)@,
        (*final(r))@,
        (LogRecord {
            timestamp: now,
            level: level@,
            stage: stage@,
            message: message@,
            labels: labels@,
        }),
    ) by {
        (*r).lemma_logs_bounded();
        lemma_logged(
            (*r)@,
            LogRecord {
                timestamp: now,
                level: level@,
                stage: stage@,
                message: message@,
                labels: labels@,
            },
        );
    }
    assert forall|r: &mut MetricsRegistry<V>|
        (*r).wf() && #[trigger] call_ensures(
            MetricsRegistry::<V>::log,
            (r, level, stage, message, labels),
            (),
        ) implies exists|time: SystemTime|
        entry_logged(
            (*r)@,
            (*final(r))@,
            (LogRecord {
                timestamp: #[trigger] epoch_millis(time),
                level: level@,
                stage: stage@,
                message: message@,
                labels: labels@,
            }),
        ) by {
        (*r).lemma_logs_bounded();
        let time = choose|time: SystemTime|
            (*final(r))@ == logged(
                (*r)@,
                (LogRecord {
                    timestamp: #[trigger] epoch_millis(time),
                    level: level@,
                    stage: stage@,
                    message: message@,
                    labels: labels@,
                }),
            );
        lemma_logged(
            (*r)@,
            LogRecord {
                timestamp: epoch_millis(time),
                level: level@,
                stage: stage@,
                message: message@,
                labels: labels@,
            },
        );
    }
}

/// A processor is kept in a cleanup.
pub open spec fn is_kept<V>(now: i64, max_age_ms: i64) -> spec_fn(Processor<V>) -> bool {
    |p: Processor<V>| p.stage != "done"@ || now - p.last_activity_at < max_age_ms
}

/// A cleanup keeps exactly the processors that are not done or were active less than
/// `max_age_ms` ago, in their order, each as it is.
pub proof fn lemma_staying<V>(processors: Seq<Processor<V>>, now: i64, max_age_ms: i64)
    ensures
        staying(processors, now, max_age_ms) == processors.filter(is_kept(now, max_age_ms)),
        forall|p: Processor<V>| #[trigger]
            staying(processors, now, max_age_ms).contains(p) <==> processors.contains(p) && (p.stage
                != "done"@ || now - p.last_activity_at < max_age_ms),
    decreases processors.len(),
{
    reveal(Seq::filter);
    if processors.len() > 0 {
        lemma_staying(processors.drop_last(), now, max_age_ms);
    }
    assert(staying(processors, now, max_age_ms) == processors.filter(is_kept(now, max_age_ms)));
    assert forall|p: Processor<V>| #[trigger]
        staying(processors, now, max_age_ms).contains(p) <==> processors.contains(p) && (p.stage
            != "done"@ || now - p.last_activity_at < max_age_ms) by {
        lemma_filter_member(processors, is_kept(now, max_age_ms), p);
    }
}

/// A cleanup keeps exactly the metrics whose newest sample is less than `max_age_ms` old, each
/// as it is.
pub proof fn lemma_current<V>(metrics: Map<Seq<char>, Metric<V>>, now: i64, max_age_ms: i64)
    ensures
        forall|key: Seq<char>| #[trigger]
            current_metrics(metrics, now, max_age_ms).dom().contains(key)
                <==> metrics.dom().contains(key) && metrics[key].samples.len() > 0 && now
                - metrics[key].samples.last().timestamp < max_age_ms,
        forall|key: Seq<char>|
            current_metrics(metrics, now, max_age_ms).dom().contains(key)
                ==> #[trigger] current_metrics(metrics, now, max_age_ms)[key] == metrics[key],
{
}

/// The processors that are counted as active are those that are not done.
pub proof fn lemma_active_count<V>(processors: Seq<Processor<V>>)
    ensures
        active_count(processors) == processors.filter(|p: Processor<V>| p.stage != "done"@).len(),
    decreases processors.len(),
{
    reveal(Seq::filter);
    if processors.len() > 0 {
        lemma_active_count(processors.drop_last());
    }
}

/// `after` is `before` with one more sample: it goes to the metric of its name and labels, behind
/// those that the metric holds, as its newest; three hundred are kept, and only the oldest is
/// given up for it. The metric keeps the name, kind and labels that it was first recorded with.
/// Nothing else changes.
pub open spec fn sample_recorded<V>(
    before: Registry<V>,
    after: Registry<V>,
    name: Seq<char>,
    kind: MetricKind,
    labels: Labels,
    now: i64,
    value: V,
) -> bool {
    let key = key_of(name, labels);
    let metric = after.metrics[key];
    &&& after == (Registry { metrics: after.metrics, ..before })
    &&& after.metrics.dom() == before.metrics.dom().insert(key)
    &&& forall|other: Seq<char>|
        other != key && before.metrics.dom().contains(other) ==> #[trigger] after.metrics[other]
            == before.metrics[other]
    &&& metric.bound == 300
    &&& metric.samples.len() > 0
    &&& metric.samples.last() == (MetricSample { timestamp: now, value })
    &&& !before.metrics.dom().contains(key) ==> {
        &&& metric.name == name
        &&& metric.kind == kind
        &&& metric.labels == labels@
        &&& metric.samples.len() == 1
    }
    &&& before.metrics.dom().contains(key) ==> {
        let held = before.metrics[key];
        &&& metric.name == held.name
        &&& metric.kind == held.kind
        &&& metric.labels == held.labels
        &&& metric.samples.drop_last() == if held.samples.len() < 300 {
            held.samples
        } else {
            held.samples.skip(1)
        }
    }
}

/// One more sample is recorded as it should be.
pub proof fn lemma_sample_kept<V>(
    registry: Registry<V>,
    name: Seq<char>,
    kind: MetricKind,
    labels: Labels,
    now: i64,
    value: V,
)
    requires
        registry.metrics.dom().contains(key_of(name, labels)) ==> {
            &&& registry.metrics[key_of(name, labels)].bound == 300
            &&& registry.metrics[key_of(name, labels)].samples.len() <= 300
        },
    ensures
        sample_recorded(
            registry,
            with_sample(registry, name, kind, labels, now, value),
            name,
            kind,
            labels,
            now,
            value,
        ),
{
    let key = key_of(name, labels);
    let after = with_sample(registry, name, kind, labels, now, value);
    assert(after.metrics.dom() =~= registry.metrics.dom().insert(key));
    if registry.metrics.dom().contains(key) {
        lemma_recorded(registry.metrics[key], now, value);
    }
}

/// A gauge and a histogram are recorded at the given time.
pub proof fn lemma_record_at<V: Copy + Default + Add<Output = V>>(
    now: i64,
    name: &str,
    value: V,
    labels: Labels,
)
    ensures
        forall|r: &mut MetricsRegistry<V>|
            (*r).wf() && #[trigger] call_ensures(
                MetricsRegistry::<V>::record_gauge_at,
                (r, now, name, value, labels),
                (),
            ) ==> sample_recorded(
                (*r)@,
                (*final(r))@,
                name@,
                MetricKind::Gauge,
                labels,
                now,
                value,
            ),
        forall|r: &mut MetricsRegistry<V>|
            (*r).wf() && #[trigger] call_ensures(
                MetricsRegistry::<V>::record_histogram_at,
                (r, now, name, value, labels),
                (),
            ) ==> sample_recorded(
                (*r)@,
                (*final(r))@,
                name@,
                MetricKind::Histogram,
                labels,
                now,
                value,
            ),
{
    assert forall|r: &mut MetricsRegistry<V>|
        (*r).wf() && #[trigger] call_ensures(
            MetricsRegistry::<V>::record_gauge_at,
            (r, now, name, value, labels),
            (),
        ) implies sample_recorded(
        (*r)@,
        (*final(r))@,
        name@,
        MetricKind::Gauge,
        labels,
        now,
        value,
    ) by {
        (*r).lemma_bounded();
        lemma_sample_kept((*r)@, name@, MetricKind::Gauge, labels, now, value);
    }
    assert forall|r: &mut MetricsRegistry<V>|
        (*r).wf() && #[trigger] call_ensures(
            MetricsRegistry::<V>::record_histogram_at,
            (r, now, name, value, labels),
            (),
        ) implies sample_recorded(
        (*r)@,
        (*final(r))@,
        name@,
        MetricKind::Histogram,
        labels,
        now,
        value,
    ) by {
        (*r).lemma_bounded();
        lemma_sample_kept((*r)@, name@, MetricKind::Histogram, labels, now, value);
    }
}

/// A gauge and a histogram are recorded at a time of the clock.
pub proof fn lemma_record<V: Copy + Default + Add<Output = V>>(
    name: &str,
    value: V,
    labels: Labels,
)
    ensures
        forall|r: &mut MetricsRegistry<V>|
            (*r).wf() && #[trigger] call_ensures(
                MetricsRegistry::<V>::record_gauge,
                (r, name, value, labels),
                (),
            ) ==> exists|time: SystemTime|
                sample_recorded(
                    (*r)@,
                    (*final(r))@,
                    name@,
                    MetricKind::Gauge,
                    labels,
                    #[trigger] epoch_millis(time),
                    value,
                ),
        forall|r: &mut MetricsRegistry<V>|
            (*r).wf() && #[trigger] call_ensures(
                MetricsRegistry::<V>::record_histogram,
                (r, name, value, labels),
                (),
            ) ==> exists|time: SystemTime|
                sample_recorded(
                    (*r)@,
                    (*final(r))@,
                    name@,
                    MetricKind::Histogram,
                    labels,
                    #[trigger] epoch_millis(time),
                    value,
                ),
{
    assert forall|r: &mut MetricsRegistry<V>|
        (*r).wf() && #[trigger] call_ensures(
            MetricsRegistry::<V>::record_gauge,
            (r, name, value, labels),
            (),
        ) implies exists|time: SystemTime|
        sample_recorded(
            (*r)@,
            (*final(r))@,
            name@,
            MetricKind::Gauge,
            labels,
            #[trigger] epoch_millis(time),
            value,
        ) by {
        (*r).lemma_bounded();
        let time = choose|time: SystemTime|
            (*final(r))@ == with_sample(
                (*r)@,
                name@,
                MetricKind::Gauge,
                labels,
                #[trigger] epoch_millis(time),
                value,
            );
        lemma_sample_kept((*r)@, name@, MetricKind::Gauge, labels, epoch_millis(time), value);
    }
    assert forall|r: &mut MetricsRegistry<V>|
        (*r).wf() && #[trigger] call_ensures(
            MetricsRegistry::<V>::record_histogram,
            (r, name, value, labels),
            (),
        ) implies exists|time: SystemTime|
        sample_recorded(
            (*r)@,
            (*final(r))@,
            name@,
            MetricKind::Histogram,
            labels,
            #[trigger] epoch_millis(time),
            value,
        ) by {
        (*r).lemma_bounded();
        let time = choose|time: SystemTime|
            (*final(r))@ == with_sample(
                (*r)@,
                name@,
                MetricKind::Histogram,
                labels,
                #[trigger] epoch_millis(time),
                value,
            );
        lemma_sample_kept((*r)@, name@, MetricKind::Histogram, labels, epoch_millis(time), value);
    }
}

/// `after` is `before` with `delta` added to a counter: its newest value is the sum of the one
/// before it, or of the default where there is none, and of `delta`. Nothing else changes.
pub open spec fn counted_up<V: Copy + Default + Add<Output = V>>(
    before: Registry<V>,
    after: Registry<V>,
    name: Seq<char>,
    labels: Labels,
    now: i64,
    delta: V,
) -> bool {
    let key = key_of(name, labels);
    exists|sum: V|
        {
            &&& #[trigger] sample_recorded(
                before,
                after,
                name,
                MetricKind::Counter,
                labels,
                now,
                sum,
            )
            &&& if before.metrics.dom().contains(key) && before.metrics[key].samples.len() > 0 {
                call_ensures(V::add, (before.metrics[key].samples.last().value, delta), sum)
            } else {
                exists|zero: V| #[trigger]
                    call_ensures(V::default, (), zero) && call_ensures(V::add, (zero, delta), sum)
            }
        }
}

/// A counter goes up by what is added.
pub proof fn lemma_counts_up<V: Copy + Default + Add<Output = V>>(
    registry: Registry<V>,
    name: Seq<char>,
    labels: Labels,
    now: i64,
    delta: V,
    after: Registry<V>,
)
    requires
        registry.metrics.dom().contains(key_of(name, labels)) ==> {
            &&& registry.metrics[key_of(name, labels)].bound == 300
            &&& registry.metrics[key_of(name, labels)].samples.len() <= 300
        },
        incremented(registry, name, labels, now, delta, after),
    ensures
        counted_up(registry, after, name, labels, now, delta),
{
    let key = key_of(name, labels);
    let (zero, sum) = choose|zero: V, sum: V|
        {
            &&& #[trigger] call_ensures(V::default, (), zero)
            &&& #[trigger] call_ensures(V::add, (counted(registry, key, zero), delta), sum)
            &&& after == with_sample(registry, name, MetricKind::Counter, labels, now, sum)
        };
    lemma_sample_kept(registry, name, MetricKind::Counter, labels, now, sum);
    assert(sample_recorded(registry, after, name, MetricKind::Counter, labels, now, sum));
}

/// A counter goes up by what is added, at the given time or at a time of the clock.
pub proof fn lemma_increment<V: Copy + Default + Add<Output = V>>(
    now: i64,
    name: &str,
    delta: V,
    labels: Labels,
)
    ensures
        forall|r: &mut MetricsRegistry<V>|
            (*r).wf() && #[trigger] call_ensures(
                MetricsRegistry::<V>::increment_counter_at,
                (r, now, name, delta, labels),
                (),
            ) ==> counted_up((*r)@, (*final(r))@, name@, labels, now, delta),
        forall|r: &mut MetricsRegistry<V>|
            (*r).wf() && #[trigger] call_ensures(
                MetricsRegistry::<V>::increment_counter,
                (r, name, delta, labels),
                (),
            ) ==> exists|time: SystemTime|
                counted_up(
                    (*r)@,
                    (*final(r))@,
                    name@,
                    labels,
                    #[trigger] epoch_millis(time),
                    delta,
                ),
{
    assert forall|r: &mut MetricsRegistry<V>|
        (*r).wf() && #[trigger] call_ensures(
            MetricsRegistry::<V>::increment_counter_at,
            (r, now, name, delta, labels),
            (),
        ) implies counted_up((*r)@, (*final(r))@, name@, labels, now, delta) by {
        (*r).lemma_bounded();
        lemma_counts_up((*r)@, name@, labels, now, delta, (*final(r))@);
    }
    assert forall|r: &mut MetricsRegistry<V>|
        (*r).wf() && #[trigger] call_ensures(
            MetricsRegistry::<V>::increment_counter,
            (r, name, delta, labels),
            (),
        ) implies exists|time: SystemTime|
        counted_up((*r)@, (*final(r))@, name@, labels, #[trigger] epoch_millis(time), delta) by {
        (*r).lemma_bounded();
        let time = choose|time: SystemTime|
            incremented(
                (*r)@,
                name@,
                labels,
                #[trigger] epoch_millis(time),
                delta,
                (*final(r))@,
            );
        lemma_counts_up((*r)@, name@, labels, epoch_millis(time), delta, (*final(r))@);
    }
}

/// A number read from the digits before and behind the first minus sign of an identifier is
/// that of the processor and that of its partition.
pub proof fn lemma_processor_id(seq: u64, partition: usize, id: String)
    requires
        call_ensures(make_processor_id, (seq, partition), id),
    ensures
        exists|k: int|
            {
                &&& 0 <= k < id@.len()
                &&& #[trigger] id@[k] == '-'
                &&& read_digits(id@.take(k)) == seq
                &&& read_digits(id@.skip(k + 1)) == partition
            },
{
    reveal_strlit("-");
    let a = decimal(seq as nat);
    let b = decimal(partition as nat);
    lemma_decimal_reads_back(seq as nat);
    lemma_decimal_reads_back(partition as nat);
    assert(id@.take(a.len() as int) =~= a);
    assert(id@.skip(a.len() as int + 1) =~= b);
    assert(id@[a.len() as int] == '-');
}

/// `after` is `before` with one more processor, which comes last, has the next number, was
/// initialised once, is at stage `init`, and has done nothing else. Nothing else changes.
pub open spec fn processor_added<V>(
    before: Registry<V>,
    after: Registry<V>,
    now: i64,
    job_id: Seq<char>,
    so_path: Seq<char>,
    fn_name: Seq<char>,
    partition: usize,
    key: Option<Seq<char>>,
    duration: V,
) -> bool {
    let p = after.processors.last();
    &&& after.processors.len() == before.processors.len() + 1
    &&& after.processors.drop_last() == before.processors
    &&& after.processor_seq == before.processor_seq + 1
    &&& after == (Registry {
        processors: after.processors,
        processor_seq: after.processor_seq,
        ..before
    })
    &&& p.job_id == job_id && p.so_path == so_path && p.fn_name == fn_name
    &&& p.partition == partition && p.key == key
    &&& p.stage == "init"@
    &&& p.rows_in == 0 && p.rows_out == 0 && p.bytes_in == 0 && p.bytes_out == 0
    &&& p.created_at == now && p.last_activity_at == now && p.finished_at is None
    &&& p.stage_stats.dom() == set!["init"@]
    &&& p.stage_stats["init"@] == (StageStats { duration_ms: duration, calls: 1 })
    &&& exists|k: int|
        {
            &&& 0 <= k < p.id.len()
            &&& #[trigger] p.id[k] == '-'
            &&& read_digits(p.id.take(k)) == after.processor_seq
            &&& read_digits(p.id.skip(k + 1)) == partition
        }
}

/// A processor that is added is there.
pub proof fn lemma_processor_added<V>(
    registry: Registry<V>,
    now: i64,
    job_id: Seq<char>,
    so_path: Seq<char>,
    fn_name: Seq<char>,
    partition: usize,
    key: Option<Seq<char>>,
    duration: V,
)
    requires
        registry.processor_seq < u64::MAX,
    ensures
        processor_added(
            registry,
            with_processor(registry, now, job_id, so_path, fn_name, partition, key, duration),
            now,
            job_id,
            so_path,
            fn_name,
            partition,
            key,
            duration,
        ),
{
    reveal_strlit("-");
    let after = with_processor(registry, now, job_id, so_path, fn_name, partition, key, duration);
    let p = after.processors.last();
    assert(after.processors.drop_last() =~= registry.processors);
    assert(p.stage_stats.dom() =~= set!["init"@]);
    let a = decimal(after.processor_seq as nat);
    let b = decimal(partition as nat);
    lemma_decimal_reads_back(after.processor_seq as nat);
    lemma_decimal_reads_back(partition as nat);
    assert(p.id.take(a.len() as int) =~= a);
    assert(p.id.skip(a.len() as int + 1) =~= b);
    assert(p.id[a.len() as int] == '-');
}

/// The text of an optional key.
pub open spec fn key_text(key: Option<&str>) -> Option<Seq<char>> {
    match key {
        Some(key) => Some(key@),
        None => None,
    }
}

/// A processor that is added is there, and the identifier that is given out is its own, and
/// that of no processor before it.
pub proof fn lemma_add_processor<V: Copy + Default + Add<Output = V>>(
    now: i64,
    job_id: &str,
    so_path: &str,
    fn_name: &str,
    partition: usize,
    key: Option<&str>,
    duration: V,
    id: String,
)
    ensures
        forall|r: &mut MetricsRegistry<V>|
            (*r)@.processor_seq < u64::MAX && #[trigger] call_ensures(
                MetricsRegistry::<V>::add_processor_at,
                (r, now, job_id, so_path, fn_name, partition, key, duration),
                id,
            ) ==> {
                &&& processor_added(
                    (*r)@,
                    (*final(r))@,
                    now,
                    job_id@,
                    so_path@,
                    fn_name@,
                    partition,
                    key_text(key),
                    duration,
                )
                &&& (*final(r))@.processors.last().id == id@
                &&& forall|i: int|
                    0 <= i < (*r)@.processors.len() ==> (#[trigger] (*r)@.processors[i]).id != id@
            },
        forall|r: &mut MetricsRegistry<V>|
            (*r)@.processor_seq < u64::MAX && #[trigger] call_ensures(
                MetricsRegistry::<V>::add_processor,
                (r, job_id, so_path, fn_name, partition, key, duration),
                id,
            ) ==> {
                &&& exists|time: SystemTime|
                    processor_added(
                        (*r)@,
                        (*final(r))@,
                        #[trigger] epoch_millis(time),
                        job_id@,
                        so_path@,
                        fn_name@,
                        partition,
                        key_text(key),
                        duration,
                    )
                &&& (*final(r))@.processors.last().id == id@
                &&& forall|i: int|
                    0 <= i < (*r)@.processors.len() ==> (#[trigger] (*r)@.processors[i]).id != id@
            },
{
    assert forall|r: &mut MetricsRegistry<V>|
        (*r)@.processor_seq < u64::MAX && #[trigger] call_ensures(
            MetricsRegistry::<V>::add_processor_at,
            (r, now, job_id, so_path, fn_name, partition, key, duration),
            id,
        ) implies processor_added(
        (*r)@,
        (*final(r))@,
        now,
        job_id@,
        so_path@,
        fn_name@,
        partition,
        key_text(key),
        duration,
    ) by {
        lemma_processor_added(
            (*r)@,
            now,
            job_id@,
            so_path@,
            fn_name@,
            partition,
            key_text(key),
            duration,
        );
    }
    assert forall|r: &mut MetricsRegistry<V>|
        (*r)@.processor_seq < u64::MAX && #[trigger] call_ensures(
            MetricsRegistry::<V>::add_processor,
            (r, job_id, so_path, fn_name, partition, key, duration),
            id,
        ) implies exists|time: SystemTime|
        processor_added(
            (*r)@,
            (*final(r))@,
            #[trigger] epoch_millis(time),
            job_id@,
            so_path@,
            fn_name@,
            partition,
            key_text(key),
            duration,
        ) by {
        let time = choose|time: SystemTime|
            (*final(r))@ == with_processor(
                (*r)@,
                #[trigger] epoch_millis(time),
                job_id@,
                so_path@,
                fn_name@,
                partition,
                opt_text(key),
                duration,
            );
        lemma_processor_added(
            (*r)@,
            epoch_millis(time),
            job_id@,
            so_path@,
            fn_name@,
            partition,
            key_text(key),
            duration,
        );
    }
}

/// `after` counts one more call of a stage than `stats`, for that stage alone, and what it took is
/// added to what the stage had taken, or to the default where it was not called yet.
pub open spec fn call_timed<V: Copy + Default + Add<Output = V>>(
    stats: Map<Seq<char>, StageStats<V>>,
    after: Map<Seq<char>, StageStats<V>>,
    stage: Seq<char>,
    duration: V,
) -> bool {
    &&& after.dom() == stats.dom().insert(stage)
    &&& forall|other: Seq<char>|
        other != stage && stats.dom().contains(other) ==> #[trigger] after[other] == stats[other]
    &&& stats.dom().contains(stage) ==> after[stage].calls == stats[stage].calls + 1
        && call_ensures(V::add, (stats[stage].duration_ms, duration), after[stage].duration_ms)
    &&& !stats.dom().contains(stage) ==> after[stage].calls == 1 && exists|zero: V| #[trigger]
        call_ensures(V::default, (), zero) && call_ensures(
            V::add,
            (zero, duration),
            after[stage].duration_ms,
        )
}

/// One more call of a stage is counted.
pub proof fn lemma_timed<V: Copy + Default + Add<Output = V>>(
    stats: Map<Seq<char>, StageStats<V>>,
    stage: Seq<char>,
    duration: V,
    after: Map<Seq<char>, StageStats<V>>,
)
    requires
        timed(stats, stage, duration, after),
        stats.dom().contains(stage) ==> stats[stage].calls < u64::MAX,
    ensures
        call_timed(stats, after, stage, duration),
{
    assert(after.dom() =~= stats.dom().insert(stage));
}

/// `q` is `p` after a call of `stage`: the rows and bytes are added, a call of the stage is
/// counted, and the stage and the time of the last activity are set. Nothing else changes.
pub open spec fn work_added<V: Copy + Default + Add<Output = V>>(
    p: Processor<V>,
    q: Processor<V>,
    now: i64,
    stage: Seq<char>,
    work: Work,
    duration: V,
) -> bool {
    &&& q.rows_in == p.rows_in + work.rows_in
    &&& q.rows_out == p.rows_out + work.rows_out
    &&& q.bytes_in == p.bytes_in + work.bytes_in
    &&& q.bytes_out == p.bytes_out + work.bytes_out
    &&& q.stage == stage
    &&& q.last_activity_at == now
    &&& call_timed(p.stage_stats, q.stage_stats, stage, duration)
    &&& q.id == p.id && q.job_id == p.job_id && q.so_path == p.so_path
    &&& q.fn_name == p.fn_name && q.partition == p.partition && q.key == p.key
    &&& q.created_at == p.created_at && q.finished_at == p.finished_at
}

/// `q` is `p` finished: it is done, at the time of its last activity, after one more call of
/// `finish`. Nothing else changes.
pub open spec fn work_done<V: Copy + Default + Add<Output = V>>(
    p: Processor<V>,
    q: Processor<V>,
    now: i64,
    duration: V,
) -> bool {
    &&& q.stage == "done"@
    &&& q.finished_at == Some(now)
    &&& q.last_activity_at == now
    &&& call_timed(p.stage_stats, q.stage_stats, "finish"@, duration)
    &&& q.rows_in == p.rows_in && q.rows_out == p.rows_out
    &&& q.bytes_in == p.bytes_in && q.bytes_out == p.bytes_out
    &&& q.id == p.id && q.job_id == p.job_id && q.so_path == p.so_path
    &&& q.fn_name == p.fn_name && q.partition == p.partition && q.key == p.key
    &&& q.created_at == p.created_at
}

/// `after` differs from `before` in the processor `id` alone, where there is one, and that one
/// has changed as `change` says.
pub open spec fn only_changed<V>(
    before: Registry<V>,
    after: Registry<V>,
    id: Seq<char>,
    change: spec_fn(Processor<V>, Processor<V>) -> bool,
) -> bool {
    &&& after == (Registry { processors: after.processors, ..before })
    &&& after.processors.len() == before.processors.len()
    &&& forall|i: int|
        #![trigger after.processors[i]]
        #![trigger before.processors[i]]
        0 <= i < before.processors.len() ==> if before.processors[i].id == id {
            change(before.processors[i], after.processors[i])
        } else {
            after.processors[i] == before.processors[i]
        }
}

/// No two processors have the same identifier.
pub open spec fn ids_differ<V>(processors: Seq<Processor<V>>) -> bool {
    forall|j: int, k: int|
        #![trigger processors[j], processors[k]]
        0 <= j < k < processors.len() ==> processors[j].id != processors[k].id
}

/// A call for a processor is counted for that processor alone.
pub proof fn lemma_updated<V: Copy + Default + Add<Output = V>>(
    registry: Registry<V>,
    now: i64,
    id: Seq<char>,
    stage: Seq<char>,
    work: Work,
    duration: V,
    after: Registry<V>,
)
    requires
        updated(registry, now, id, stage, work, duration, after),
        ids_differ(registry.processors),
        forall|i: int|
            0 <= i < registry.processors.len() && (#[trigger] registry.processors[i]).id == id
                ==> has_room(registry.processors[i], stage, work),
    ensures
        only_changed(
            registry,
            after,
            id,
            |p: Processor<V>, q: Processor<V>| work_added(p, q, now, stage, work, duration),
        ),
{
    lemma_first_with_id(registry.processors, id);
    if let Some(j) = first_with_id(registry.processors, id) {
        let p = registry.processors[j];
        assert(has_room(p, stage, work));
        lemma_timed(p.stage_stats, stage, duration, after.processors[j].stage_stats);
        assert forall|i: int|
            #![trigger after.processors[i]]
            #![trigger registry.processors[i]]
            0 <= i < registry.processors.len() implies if registry.processors[i].id == id {
            work_added(registry.processors[i], after.processors[i], now, stage, work, duration)
        } else {
            after.processors[i] == registry.processors[i]
        } by {
            if j < i {
                assert(registry.processors[j].id != registry.processors[i].id);
            }
            if i < j {
                assert(registry.processors[i].id != registry.processors[j].id);
            }
        }
    }
}

/// A processor is finished, and no other.
pub proof fn lemma_ended<V: Copy + Default + Add<Output = V>>(
    registry: Registry<V>,
    now: i64,
    id: Seq<char>,
    duration: V,
    after: Registry<V>,
)
    requires
        ended(registry, now, id, duration, after),
        ids_differ(registry.processors),
        forall|i: int|
            0 <= i < registry.processors.len() && (#[trigger] registry.processors[i]).id == id
                ==> calls_before(registry.processors[i].stage_stats, "finish"@) < u64::MAX,
    ensures
        only_changed(
            registry,
            after,
            id,
            |p: Processor<V>, q: Processor<V>| work_done(p, q, now, duration),
        ),
{
    lemma_first_with_id(registry.processors, id);
    if let Some(j) = first_with_id(registry.processors, id) {
        let p = registry.processors[j];
        assert(calls_before(p.stage_stats, "finish"@) < u64::MAX);
        lemma_timed(p.stage_stats, "finish"@, duration, after.processors[j].stage_stats);
        assert forall|i: int|
            #![trigger after.processors[i]]
            #![trigger registry.processors[i]]
            0 <= i < registry.processors.len() implies if registry.processors[i].id == id {
            work_done(registry.processors[i], after.processors[i], now, duration)
        } else {
            after.processors[i] == registry.processors[i]
        } by {
            if j < i {
                assert(registry.processors[j].id != registry.processors[i].id);
            }
            if i < j {
                assert(registry.processors[i].id != registry.processors[j].id);
            }
        }
    }
}

/// A call for a processor is counted for that processor alone, at the given time or at a time
/// of the clock.
pub proof fn lemma_update_processor<V: Copy + Default + Add<Output = V>>(
    now: i64,
    id: &str,
    stage: &str,
    work: Work,
    duration: V,
)
    ensures
        forall|r: &mut MetricsRegistry<V>|
            (*r).wf() && room_for(*r, id@, stage@, work) && #[trigger] call_ensures(
                MetricsRegistry::<V>::update_processor_at,
                (
                    r,
                    now,
                    id,
                    stage,
                    work.rows_in,
                    work.rows_out,
                    work.bytes_in,
                    work.bytes_out,
                    duration,
                ),
                (),
            ) ==> only_changed(
                (*r)@,
                (*final(r))@,
                id@,
                |p: Processor<V>, q: Processor<V>| work_added(p, q, now, stage@, work, duration),
            ),
        forall|r: &mut MetricsRegistry<V>|
            (*r).wf() && room_for(*r, id@, stage@, work) && #[trigger] call_ensures(
                MetricsRegistry::<V>::update_processor,
                (
                    r,
                    id,
                    stage,
                    work.rows_in,
                    work.rows_out,
                    work.bytes_in,
                    work.bytes_out,
                    duration,
                ),
                (),
            ) ==> exists|time: SystemTime|
                changed_at(
                    (*r)@,
                    (*final(r))@,
                    id@,
                    #[trigger] epoch_millis(time),
                    |p: Processor<V>, q: Processor<V>, at: i64|
                        work_added(p, q, at, stage@, work, duration),
                ),
{
    assert forall|r: &mut MetricsRegistry<V>|
        (*r).wf() && room_for(*r, id@, stage@, work) && #[trigger] call_ensures(
            MetricsRegistry::<V>::update_processor_at,
            (
                r,
                now,
                id,
                stage,
                work.rows_in,
                work.rows_out,
                work.bytes_in,
                work.bytes_out,
                duration,
            ),
            (),
        ) implies only_changed(
        (*r)@,
        (*final(r))@,
        id@,
        |p: Processor<V>, q: Processor<V>| work_added(p, q, now, stage@, work, duration),
    ) by {
        (*r).lemma_ids();
        lemma_updated((*r)@, now, id@, stage@, work, duration, (*final(r))@);
    }
    assert forall|r: &mut MetricsRegistry<V>|
        (*r).wf() && room_for(*r, id@, stage@, work) && #[trigger] call_ensures(
            MetricsRegistry::<V>::update_processor,
            (
                r,
                id,
                stage,
                work.rows_in,
                work.rows_out,
                work.bytes_in,
                work.bytes_out,
                duration,
            ),
            (),
        ) implies exists|time: SystemTime|
        changed_at(
            (*r)@,
            (*final(r))@,
            id@,
            #[trigger] epoch_millis(time),
            |p: Processor<V>, q: Processor<V>, at: i64|
                work_added(p, q, at, stage@, work, duration),
        ) by {
        (*r).lemma_ids();
        let time = choose|time: SystemTime|
            updated(
                (*r)@,
                #[trigger] epoch_millis(time),
                id@,
                stage@,
                work,
                duration,
                (*final(r))@,
            );
        lemma_updated((*r)@, epoch_millis(time), id@, stage@, work, duration, (*final(r))@);
        let change = |p: Processor<V>, q: Processor<V>, at: i64|
            work_added(p, q, at, stage@, work, duration);
        assert(changed_at((*r)@, (*final(r))@, id@, epoch_millis(time), change));
    }
}

/// `after` differs from `before` in the processor `id` alone, where there is one, and that one
/// has changed at the given time as `change` says.
pub open spec fn changed_at<V>(
    before: Registry<V>,
    after: Registry<V>,
    id: Seq<char>,
    at: i64,
    change: spec_fn(Processor<V>, Processor<V>, i64) -> bool,
) -> bool {
    only_changed(before, after, id, |p: Processor<V>, q: Processor<V>| change(p, q, at))
}

/// The counters of the processor `id` have room for `work`.
pub open spec fn room_for<V: Copy + Default + Add<Output = V>>(
    registry: MetricsRegistry<V>,
    id: Seq<char>,
    stage: Seq<char>,
    work: Work,
) -> bool {
    forall|i: int|
        0 <= i < registry@.processors.len() && (#[trigger] registry@.processors[i]).id == id
            ==> has_room(registry@.processors[i], stage, work)
}

/// A processor is finished, and no other, at the given time or at a time of the clock.
pub proof fn lemma_finish_processor<V: Copy + Default + Add<Output = V>>(
    now: i64,
    id: &str,
    duration: V,
)
    ensures
        forall|r: &mut MetricsRegistry<V>|
            (*r).wf() && room_for(
                *r,
                id@,
                "finish"@,
                (Work { rows_in: 0, rows_out: 0, bytes_in: 0, bytes_out: 0 }),
            ) && #[trigger] call_ensures(
                MetricsRegistry::<V>::finish_processor_at,
                (r, now, id, duration),
                (),
            ) ==> only_changed(
                (*r)@,
                (*final(r))@,
                id@,
                |p: Processor<V>, q: Processor<V>| work_done(p, q, now, duration),
            ),
        forall|r: &mut MetricsRegistry<V>|
            (*r).wf() && room_for(
                *r,
                id@,
                "finish"@,
                (Work { rows_in: 0, rows_out: 0, bytes_in: 0, bytes_out: 0 }),
            ) && #[trigger] call_ensures(
                MetricsRegistry::<V>::finish_processor,
                (r, id, duration),
                (),
            ) ==> exists|time: SystemTime|
                changed_at(
                    (*r)@,
                    (*final(r))@,
                    id@,
                    #[trigger] epoch_millis(time),
                    |p: Processor<V>, q: Processor<V>, at: i64| work_done(p, q, at, duration),
                ),
{
    assert forall|r: &mut MetricsRegistry<V>|
        (*r).wf() && room_for(
            *r,
            id@,
            "finish"@,
            (Work { rows_in: 0, rows_out: 0, bytes_in: 0, bytes_out: 0 }),
        ) && #[trigger] call_ensures(
            MetricsRegistry::<V>::finish_processor_at,
            (r, now, id, duration),
            (),
        ) implies only_changed(
        (*r)@,
        (*final(r))@,
        id@,
        |p: Processor<V>, q: Processor<V>| work_done(p, q, now, duration),
    ) by {
        (*r).lemma_ids();
        lemma_ended((*r)@, now, id@, duration, (*final(r))@);
    }
    assert forall|r: &mut MetricsRegistry<V>|
        (*r).wf() && room_for(
            *r,
            id@,
            "finish"@,
            (Work { rows_in: 0, rows_out: 0, bytes_in: 0, bytes_out: 0 }),
        ) && #[trigger] call_ensures(
            MetricsRegistry::<V>::finish_processor,
            (r, id, duration),
            (),
        ) implies exists|time: SystemTime|
        changed_at(
            (*r)@,
            (*final(r))@,
            id@,
            #[trigger] epoch_millis(time),
            |p: Processor<V>, q: Processor<V>, at: i64| work_done(p, q, at, duration),
        ) by {
        (*r).lemma_ids();
        let time = choose|time: SystemTime|
            ended((*r)@, #[trigger] epoch_millis(time), id@, duration, (*final(r))@);
        lemma_ended((*r)@, epoch_millis(time), id@, duration, (*final(r))@);
        let change = |p: Processor<V>, q: Processor<V>, at: i64| work_done(p, q, at, duration);
        assert(changed_at((*r)@, (*final(r))@, id@, epoch_millis(time), change));
    }
}

/// `after` is `before` without the processors that are done and were not active for
/// `max_age_ms`. Nothing else changes.
pub open spec fn processors_cleaned<V>(
    before: Registry<V>,
    after: Registry<V>,
    now: i64,
    max_age_ms: i64,
) -> bool {
    &&& after == (Registry { processors: after.processors, ..before })
    &&& after.processors == before.processors.filter(is_kept(now, max_age_ms))
}

/// `after` is `before` without the metrics whose newest sample is `max_age_ms` old or older.
/// Nothing else changes.
pub open spec fn metrics_cleaned<V>(
    before: Registry<V>,
    after: Registry<V>,
    now: i64,
    max_age_ms: i64,
) -> bool {
    &&& after == (Registry { metrics: after.metrics, ..before })
    &&& forall|key: Seq<char>| #[trigger]
        after.metrics.dom().contains(key) <==> before.metrics.dom().contains(key)
            && before.metrics[key].samples.len() > 0 && now
            - before.metrics[key].samples.last().timestamp < max_age_ms
    &&& forall|key: Seq<char>|
        after.metrics.dom().contains(key) ==> #[trigger] after.metrics[key] == before.metrics[key]
}

/// A cleanup forgets what it should, as of the given time or of a time of the clock.
pub proof fn lemma_cleanup<V: Copy + Default + Add<Output = V>>(now: i64, max_age_ms: i64)
    ensures
        forall|r: &mut MetricsRegistry<V>| #[trigger]
            call_ensures(
                MetricsRegistry::<V>::cleanup_processors_at,
                (r, now, max_age_ms),
                (),
            ) ==> processors_cleaned((*r)@, (*final(r))@, now, max_age_ms),
        forall|r: &mut MetricsRegistry<V>| #[trigger]
            call_ensures(MetricsRegistry::<V>::cleanup_processors, (r, max_age_ms), ())
                ==> exists|time: SystemTime|
                processors_cleaned(
                    (*r)@,
                    (*final(r))@,
                    #[trigger] epoch_millis(time),
                    max_age_ms,
                ),
        forall|r: &mut MetricsRegistry<V>| #[trigger]
            call_ensures(MetricsRegistry::<V>::cleanup_metrics_at, (r, now, max_age_ms), ())
                ==> metrics_cleaned((*r)@, (*final(r))@, now, max_age_ms),
        forall|r: &mut MetricsRegistry<V>| #[trigger]
            call_ensures(MetricsRegistry::<V>::cleanup_metrics, (r, max_age_ms), ()) ==> exists|
                time: SystemTime,
            |
                metrics_cleaned((*r)@, (*final(r))@, #[trigger] epoch_millis(time), max_age_ms),
{
    assert forall|r: &mut MetricsRegistry<V>| #[trigger]
        call_ensures(
            MetricsRegistry::<V>::cleanup_processors_at,
            (r, now, max_age_ms),
            (),
        ) implies processors_cleaned((*r)@, (*final(r))@, now, max_age_ms) by {
        lemma_staying((*r)@.processors, now, max_age_ms);
    }
    assert forall|r: &mut MetricsRegistry<V>| #[trigger]
        call_ensures(
            MetricsRegistry::<V>::cleanup_processors,
            (r, max_age_ms),
            (),
        ) implies exists|time: SystemTime|
        processors_cleaned((*r)@, (*final(r))@, #[trigger] epoch_millis(time), max_age_ms) by {
        let time = choose|time: SystemTime|
            (*final(r))@.processors == staying(
                (*r)@.processors,
                #[trigger] epoch_millis(time),
                max_age_ms,
            );
        lemma_staying((*r)@.processors, epoch_millis(time), max_age_ms);
        assert(processors_cleaned((*r)@, (*final(r))@, epoch_millis(time), max_age_ms));
    }
    assert forall|r: &mut MetricsRegistry<V>| #[trigger]
        call_ensures(
            MetricsRegistry::<V>::cleanup_metrics,
            (r, max_age_ms),
            (),
        ) implies exists|time: SystemTime|
        metrics_cleaned((*r)@, (*final(r))@, #[trigger] epoch_millis(time), max_age_ms) by {
        let time = choose|time: SystemTime|
            (*final(r))@.metrics == current_metrics(
                (*r)@.metrics,
                #[trigger] epoch_millis(time),
                max_age_ms,
            );
        assert(metrics_cleaned((*r)@, (*final(r))@, epoch_millis(time), max_age_ms));
    }
}

/// A new registry knows nothing of its node, and holds nothing; saying which node it is sets
/// that and the time of its start, and nothing else.
pub proof fn lemma_init<V: Copy + Default + Add<Output = V>>(
    now: i64,
    registry: MetricsRegistry<V>,
    role: &str,
    node_name: &str,
    concurrent_tasks: usize,
)
    ensures
        call_ensures(MetricsRegistry::<V>::new_at, (now,), registry) ==> {
            &&& registry@.role == "unknown"@ && registry@.node_name == "unknown"@
            &&& registry@.started_at == now
            &&& registry@.metrics.dom() == Set::<Seq<char>>::empty()
            &&& registry@.logs.len() == 0 && registry@.processors.len() == 0
            &&& registry@.concurrent_tasks == 0 && registry@.processor_seq == 0
        },
        forall|r: &mut MetricsRegistry<V>| #[trigger]
            call_ensures(
                MetricsRegistry::<V>::init_at,
                (r, now, role, node_name, concurrent_tasks),
                (),
            ) ==> {
                let before = (*r)@;
                let after = (*final(r))@;
                &&& after.role == role@ && after.node_name == node_name@
                &&& after.started_at == now && after.concurrent_tasks == concurrent_tasks
                &&& after.metrics == before.metrics && after.logs == before.logs
                &&& after.processors == before.processors
                &&& after.processor_seq == before.processor_seq
            },
        forall|r: &mut MetricsRegistry<V>| #[trigger]
            call_ensures(
                MetricsRegistry::<V>::init,
                (r, role, node_name, concurrent_tasks),
                (),
            ) ==> {
                let before = (*r)@;
                let after = (*final(r))@;
                &&& after.role == role@ && after.node_name == node_name@
                &&& after.concurrent_tasks == concurrent_tasks
                &&& exists|time: SystemTime| after.started_at == #[trigger] epoch_millis(time)
                &&& after.metrics == before.metrics && after.logs == before.logs
                &&& after.processors == before.processors
                &&& after.processor_seq == before.processor_seq
            },
{
    assert(Map::<Seq<char>, Metric<V>>::empty().dom() =~= Set::<Seq<char>>::empty());
}

/// A snapshot shows a metric: its name, kind and labels, and its newest sample.
pub open spec fn is_snapshot<V>(snapshot: MetricSnapshot<V>, metric: Metric<V>) -> bool {
    &&& snapshot.name@ == metric.name
    &&& snapshot.kind == metric.kind
    &&& snapshot.labels@ == metric.labels
    &&& metric.samples.len() == 0 ==> snapshot.value is None && snapshot.timestamp is None
    &&& metric.samples.len() > 0 ==> snapshot.value == Some(metric.samples.last().value)
        && snapshot.timestamp == Some(metric.samples.last().timestamp)
}

/// `snapshots` show all of `metrics`, each once.
pub open spec fn all_shown<V>(
    snapshots: Seq<MetricSnapshot<V>>,
    metrics: Map<Seq<char>, Metric<V>>,
) -> bool {
    exists|keys: Seq<Seq<char>>|
        {
            &&& keys.len() == snapshots.len()
            &&& #[trigger] keys.no_duplicates()
            &&& forall|key: Seq<char>| #[trigger]
                keys.contains(key) <==> metrics.dom().contains(key)
            &&& forall|i: int|
                0 <= i < keys.len() ==> is_snapshot(#[trigger] snapshots[i], metrics[keys[i]])
        }
}

/// The snapshots of a registry show each of its metrics once.
pub proof fn lemma_all_shown<V: Copy + Default + Add<Output = V>>(
    registry: MetricsRegistry<V>,
    snapshots: Vec<MetricSnapshot<V>>,
)
    requires
        registry.wf(),
        call_ensures(MetricsRegistry::<V>::all_metrics_snapshot, (&registry,), snapshots),
    ensures
        all_shown(snapshots@, registry@.metrics),
{
    let keys = registry.metric_keys();
    registry.lemma_metric_keys();
    assert(keys.no_duplicates()) by {
        assert forall|i: int, j: int| 0 <= i < j < keys.len() implies keys[i] != keys[j] by {
            lemma_text_order_total(keys[i], keys[j]);
        }
    }
}

/// The node at a glance: who it is, since when it is up and for how long, its metrics, each
/// once, the number of its processors that are not done, and the number of all it ever had.
pub proof fn lemma_overview<V: Copy + Default + Add<Output = V>>(
    registry: MetricsRegistry<V>,
    now: i64,
    overview: NodeOverview<V>,
)
    requires
        registry.wf(),
        call_ensures(MetricsRegistry::<V>::overview_at, (&registry, now), overview),
    ensures
        overview.role@ == registry@.role,
        overview.node_name@ == registry@.node_name,
        overview.started_at == registry@.started_at,
        overview.uptime_ms == now - registry@.started_at,
        all_shown(overview.metrics@, registry@.metrics),
        overview.processor_count == registry@.processors.filter(
            |p: Processor<V>| p.stage != "done"@,
        ).len(),
        overview.processor_total == registry@.processor_seq,
        overview.concurrent_tasks == registry@.concurrent_tasks,
{
    let keys = registry.metric_keys();
    registry.lemma_metric_keys();
    lemma_active_count(registry@.processors);
    assert(keys.no_duplicates()) by {
        assert forall|i: int, j: int| 0 <= i < j < keys.len() implies keys[i] != keys[j] by {
            lemma_text_order_total(keys[i], keys[j]);
        }
    }
}

/// The milliseconds of a time are the whole ones that have passed since the epoch; they do not
/// fall as time goes on.
pub proof fn lemma_millis(time: SystemTime, millis: i64, later: SystemTime, more: i64)
    requires
        call_ensures(millis_at, (time,), millis),
        call_ensures(millis_at, (later,), more),
        epoch_nanos(time) <= epoch_nanos(later),
        epoch_nanos(later) / 1_000_000 <= i64::MAX,
    ensures
        epoch_nanos(time) < 0 ==> millis == 0,
        epoch_nanos(time) >= 0 ==> 1_000_000 * millis <= epoch_nanos(time) < 1_000_000 * (millis
            + 1),
        millis <= more,
{
    assert(epoch_nanos(time) / 1_000_000 <= epoch_nanos(later) / 1_000_000) by (nonlinear_arith)
        requires
            epoch_nanos(time) <= epoch_nanos(later),
    ;
}

/// There is room for a call exactly where no counter of the processor would go beyond its range.
pub proof fn lemma_has_room<V>(p: Processor<V>, stage: Seq<char>, work: Work)
    ensures
        has_room(p, stage, work) <==> {
            &&& p.rows_in + work.rows_in <= u64::MAX
            &&& p.rows_out + work.rows_out <= u64::MAX
            &&& p.bytes_in + work.bytes_in <= u64::MAX
            &&& p.bytes_out + work.bytes_out <= u64::MAX
            &&& p.stage_stats.dom().contains(stage) ==> p.stage_stats[stage].calls < u64::MAX
        },
{
}

/// A processor is found by its identifier, and not found where none has it.
pub proof fn lemma_found_processor<V>(
    processors: Vec<ProcessorInfo<V>>,
    id: &str,
    found: Option<usize>,
)
    requires
        call_ensures(find_processor::<V>, (&processors, id), found),
    ensures
        found matches Some(i) ==> {
            &&& i < processors@.len()
            &&& processors@[i as int].id@ == id@
            &&& forall|j: int| 0 <= j < i ==> (#[trigger] processors@[j]).id@ != id@
        },
        found is None ==> forall|j: int|
            0 <= j < processors@.len() ==> (#[trigger] processors@[j]).id@ != id@,
{
    let views = processor_views(processors@);
    lemma_first_with_id(views, id@);
    assert forall|j: int| 0 <= j < processors@.len() implies (#[trigger] processors@[j]).id@
        == views[j].id by {}
}

/// A node at a glance at a time of the clock, and a registry that is started at one.
pub proof fn lemma_by_the_clock<V: Copy + Default + Add<Output = V>>(
    registry: MetricsRegistry<V>,
    overview: NodeOverview<V>,
    started: MetricsRegistry<V>,
)
    requires
        registry.wf(),
        call_ensures(MetricsRegistry::<V>::overview, (&registry,), overview),
        call_ensures(MetricsRegistry::<V>::new, (), started),
    ensures
        overview.role@ == registry@.role,
        overview.node_name@ == registry@.node_name,
        overview.started_at == registry@.started_at,
        exists|time: SystemTime|
            overview.uptime_ms == #[trigger] epoch_millis(time) - registry@.started_at,
        all_shown(overview.metrics@, registry@.metrics),
        overview.processor_count == registry@.processors.filter(
            |p: Processor<V>| p.stage != "done"@,
        ).len(),
        overview.processor_total == registry@.processor_seq,
        overview.concurrent_tasks == registry@.concurrent_tasks,
        exists|time: SystemTime| started@.started_at == #[trigger] epoch_millis(time),
        started@.role == "unknown"@ && started@.node_name == "unknown"@,
        started@.logs.len() == 0 && started@.processors.len() == 0,
        forall|key: Seq<char>| !#[trigger] started@.metrics.dom().contains(key),
{
    let keys = registry.metric_keys();
    registry.lemma_metric_keys();
    lemma_active_count(registry@.processors);
    assert(keys.no_duplicates()) by {
        assert forall|i: int, j: int| 0 <= i < j < keys.len() implies keys[i] != keys[j] by {
            lemma_text_order_total(keys[i], keys[j]);
        }
    }
}

} // verus!
