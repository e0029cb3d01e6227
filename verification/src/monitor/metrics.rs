//! Metrics with their newest samples.
use vstd::prelude::*;

use crate::monitor::labels::{dup_labels, Labels};
use crate::monitor::store::{newest, RingBuffer};

verus! {

/// What a metric counts.
#[derive(Debug, Clone, Copy, PartialEq, Eq, Structural)]
pub enum MetricKind {
    Counter,
    Gauge,
    Histogram,
}

/// A value at a time, in milliseconds since the epoch.
#[derive(Debug, Clone, Copy)]
pub struct MetricSample<V> {
    pub timestamp: i64,
    pub value: V,
}

/// A metric with its newest samples.
#[derive(Debug)]
pub struct MetricEntry<V> {
    pub name: String,
    pub kind: MetricKind,
    pub labels: Labels,
    pub samples: RingBuffer<MetricSample<V>>,
}

/// What a metric is.
pub struct Metric<V> {
    pub name: Seq<char>,
    pub kind: MetricKind,
    pub labels: Map<Seq<char>, String>,
    pub samples: Seq<MetricSample<V>>,
    pub bound: nat,
}

impl<V> View for MetricEntry<V> {
    type V = Metric<V>;

    open spec fn view(&self) -> Metric<V> {
        Metric {
            name: self.name@,
            kind: self.kind,
            labels: self.labels@,
            samples: self.samples@,
            bound: self.samples.bound(),
        }
    }
}

/// The newest sample, if any.
pub open spec fn latest<V>(samples: Seq<MetricSample<V>>) -> Option<MetricSample<V>> {
    if samples.len() == 0 {
        None
    } else {
        Some(samples.last())
    }
}

/// The samples that are not older than `since`, in their order.
pub open spec fn samples_since<V>(samples: Seq<MetricSample<V>>, since: i64) -> Seq<MetricSample<V>>
    decreases samples.len(),
{
    if samples.len() == 0 {
        Seq::empty()
    } else {
        let before = samples_since(samples.drop_last(), since);
        if samples.last().timestamp >= since {
            before.push(samples.last())
        } else {
            before
        }
    }
}

/// A metric with one more sample.
pub open spec fn recorded<V>(metric: Metric<V>, timestamp: i64, value: V) -> Metric<V> {
    Metric {
        samples: newest(metric.samples.push(MetricSample { timestamp, value }), metric.bound),
        ..metric
    }
}

impl<V: Copy> MetricEntry<V> {
    /// The labels and the samples are well-formed.
    pub open spec fn wf(&self) -> bool {
        &&& self.labels.wf()
        &&& self.samples.wf()
    }

    /// A metric without samples, for at most `capacity` of them.
    pub fn new(name: &str, kind: MetricKind, labels: Labels, capacity: usize) -> (entry:
        MetricEntry<V>)
        requires
            labels.wf(),
        ensures
            entry.wf(),
            entry.labels == labels,
            entry@ == (Metric::<V> {
                name: name@,
                kind,
                labels: labels@,
                samples: Seq::empty(),
                bound: capacity as nat,
            }),
    {
        MetricEntry { name: name.to_owned(), kind, labels, samples: RingBuffer::new(capacity) }
    }

    /// Adds a sample; it takes the place of the oldest one where there is no room.
    pub fn record(&mut self, timestamp: i64, value: V)
        requires
            old(self).wf(),
            old(self)@.bound > 0,
        ensures
            final(self).wf(),
            final(self).labels == old(self).labels,
            final(self)@ == recorded(old(self)@, timestamp, value),
    {
        self.samples.push(MetricSample { timestamp, value });
    }

    /// The newest value, if any.
    pub fn latest_value(&self) -> (value: Option<V>)
        requires
            self.wf(),
        ensures
            value == (match latest(self@.samples) {
                Some(sample) => Some(sample.value),
                None => None,
            }),
    {
        match self.samples.last() {
            Some(sample) => Some(sample.value),
            None => None,
        }
    }

    /// The time of the newest value, if any.
    pub fn latest_timestamp(&self) -> (timestamp: Option<i64>)
        requires
            self.wf(),
        ensures
            timestamp == (match latest(self@.samples) {
                Some(sample) => Some(sample.timestamp),
                None => None,
            }),
    {
        match self.samples.last() {
            Some(sample) => Some(sample.timestamp),
            None => None,
        }
    }

    /// The samples that are not older than `since`, the oldest first.
    pub fn history_since(&self, since: i64) -> (samples: Vec<MetricSample<V>>)
        requires
            self.wf(),
        ensures
            samples@ == samples_since(self@.samples, since),
    {
        let held = self.samples.to_vec();
        let ghost all = self.samples@;
        let mut samples: Vec<MetricSample<V>> = Vec::new();
        let mut i: usize = 0;
        assert(all.take(0) =~= Seq::<MetricSample<V>>::empty());
        while i < held.len()
            invariant
                i <= held@.len(),
                held@.len() == all.len(),
                forall|j: int| 0 <= j < held@.len() ==> *(#[trigger] held@[j]) == all[j],
                samples@ == samples_since(all.take(i as int), since),
            decreases held@.len() - i,
        {
            proof {
                assert(all.take(i + 1).drop_last() =~= all.take(i as int));
                assert(*held@[i as int] == all[i as int]);
            }
            if held[i].timestamp >= since {
                samples.push(*held[i]);
            }
            i = i + 1;
        }
        assert(all.take(i as int) =~= all);
        samples
    }
}

/// A metric with its newest value only.
#[derive(Debug)]
pub struct MetricSnapshot<V> {
    pub name: String,
    pub kind: MetricKind,
    pub labels: Labels,
    pub value: Option<V>,
    pub timestamp: Option<i64>,
}

/// `snapshot` shows `metric`.
pub open spec fn shows<V>(snapshot: MetricSnapshot<V>, metric: Metric<V>) -> bool {
    &&& snapshot.name@ == metric.name
    &&& snapshot.kind == metric.kind
    &&& snapshot.labels.wf()
    &&& snapshot.labels@ == metric.labels
    &&& match latest(metric.samples) {
        Some(sample) => snapshot.value == Some(sample.value) && snapshot.timestamp == Some(
            sample.timestamp,
        ),
        None => snapshot.value is None && snapshot.timestamp is None,
    }
}

impl<V: Copy> MetricSnapshot<V> {
    /// The newest value of a metric.
    pub fn of(entry: &MetricEntry<V>) -> (snapshot: MetricSnapshot<V>)
        requires
            entry.wf(),
        ensures
            shows(snapshot, entry@),
    {
        MetricSnapshot {
            name: entry.name.clone(),
            kind: entry.kind,
            labels: dup_labels(&entry.labels),
            value: entry.latest_value(),
            timestamp: entry.latest_timestamp(),
        }
    }
}

} // verus!
