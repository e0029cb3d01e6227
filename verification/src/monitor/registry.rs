//! The registry of a node: its metrics, its logs and its processors.
use std::ops::Add;
use std::time::SystemTime;

use vstd::prelude::*;

use crate::monitor::clock::{epoch_millis, now_millis};
use crate::monitor::history::{sort_by_time, time_sorted};
use crate::monitor::labels::{key_of, make_key, Labels};
use crate::monitor::log_collector::{of_level, LogEntry, LogRecord};
use crate::monitor::metrics::{
    latest, recorded, samples_since, shows, Metric, MetricEntry, MetricKind, MetricSample,
    MetricSnapshot,
};
use crate::monitor::processor::{
    calls_before, find_processor, finished, first_with_id, fresh_processor, has_room,
    lemma_first_with_id, lemma_id_injective, make_processor_id, processor_id, processor_views,
    summable, worked, Processor, ProcessorInfo, Work,
};
use crate::monitor::store::{newest, RingBuffer};
use crate::monitor::text_map::{ascending_texts, TextMap};

verus! {

/// The number of samples that a metric keeps: five minutes of one per second.
pub const DEFAULT_SAMPLE_CAPACITY: usize = 300;

/// The number of log entries that are kept.
pub const DEFAULT_LOG_CAPACITY: usize = 1000;

/// The registry of a node.
#[derive(Debug)]
pub struct MetricsRegistry<V> {
    role: String,
    node_name: String,
    started_at: i64,
    metrics: TextMap<MetricEntry<V>>,
    logs: RingBuffer<LogEntry>,
    processors: Vec<ProcessorInfo<V>>,
    concurrent_tasks: usize,
    processor_seq: u64,
}

/// What a registry holds.
#[verifier::ext_equal]
pub struct Registry<V> {
    /// `scheduler` or `executor`.
    pub role: Seq<char>,
    pub node_name: Seq<char>,
    /// When the node started, in milliseconds since the epoch.
    pub started_at: i64,
    /// The metrics, by key.
    pub metrics: Map<Seq<char>, Metric<V>>,
    pub logs: Seq<LogRecord>,
    pub processors: Seq<Processor<V>>,
    pub concurrent_tasks: usize,
    /// The number of processors ever made.
    pub processor_seq: u64,
}

/// The metrics in a map.
pub open spec fn metric_views<V>(metrics: Map<Seq<char>, MetricEntry<V>>) -> Map<
    Seq<char>,
    Metric<V>,
> {
    metrics.map_values(|entry: MetricEntry<V>| entry@)
}

/// The log entries in a list.
pub open spec fn log_views(logs: Seq<LogEntry>) -> Seq<LogRecord> {
    logs.map_values(|entry: LogEntry| entry@)
}

impl<V> View for MetricsRegistry<V> {
    type V = Registry<V>;

    closed spec fn view(&self) -> Registry<V> {
        Registry {
            role: self.role@,
            node_name: self.node_name@,
            started_at: self.started_at,
            metrics: metric_views(self.metrics@),
            logs: log_views(self.logs@),
            processors: processor_views(self.processors@),
            concurrent_tasks: self.concurrent_tasks,
            processor_seq: self.processor_seq,
        }
    }
}

/// Each processor got its identifier in its turn, and no two got the same.
pub open spec fn ids_in_turn<V>(processors: Seq<Processor<V>>, processor_seq: u64) -> bool {
    &&& forall|i: int|
        0 <= i < processors.len() ==> exists|seq: nat|
            seq <= processor_seq && (#[trigger] processors[i]).id == #[trigger] processor_id(
                seq,
                processors[i].partition as nat,
            )
    &&& forall|i: int, j: int|
        #![trigger processors[i], processors[j]]
        0 <= i < j < processors.len() ==> processors[i].id != processors[j].id
}

/// The metrics with one more sample for the metric of `key`; a new metric starts as
/// `start`.
pub open spec fn sampled<V>(
    metrics: Map<Seq<char>, Metric<V>>,
    key: Seq<char>,
    start: Metric<V>,
    now: i64,
    value: V,
) -> Map<Seq<char>, Metric<V>> {
    let metric = if metrics.dom().contains(key) {
        metrics[key]
    } else {
        start
    };
    metrics.insert(key, recorded(metric, now, value))
}

/// A metric without samples.
pub open spec fn empty_metric<V>(name: Seq<char>, kind: MetricKind, labels: Labels) -> Metric<V> {
    Metric {
        name,
        kind,
        labels: labels@,
        samples: Seq::empty(),
        bound: DEFAULT_SAMPLE_CAPACITY as nat,
    }
}

/// The registry with one more sample.
pub open spec fn with_sample<V>(
    registry: Registry<V>,
    name: Seq<char>,
    kind: MetricKind,
    labels: Labels,
    now: i64,
    value: V,
) -> Registry<V> {
    Registry {
        metrics: sampled(
            registry.metrics,
            key_of(name, labels),
            empty_metric(name, kind, labels),
            now,
            value,
        ),
        ..registry
    }
}

/// A registry of a node that nothing is known of.
pub open spec fn blank<V>(now: i64) -> Registry<V> {
    Registry {
        role: "unknown"@,
        node_name: "unknown"@,
        started_at: now,
        metrics: Map::empty(),
        logs: Seq::empty(),
        processors: Seq::empty(),
        concurrent_tasks: 0,
        processor_seq: 0,
    }
}

impl<V: Copy + Default + Add<Output = V>> MetricsRegistry<V> {
    /// The parts are well-formed, every metric has room for the default number of samples,
    /// and no two processors have the same identifier.
    pub closed spec fn wf(&self) -> bool {
        &&& self.metrics.wf()
        &&& forall|key: Seq<char>| #[trigger]
            self.metrics@.dom().contains(key) ==> self.metrics@[key].wf()
                && self.metrics@[key]@.bound == DEFAULT_SAMPLE_CAPACITY
        &&& self.logs.wf()
        &&& self.logs.bound() == DEFAULT_LOG_CAPACITY
        &&& forall|i: int| 0 <= i < self.logs@.len() ==> (#[trigger] self.logs@[i]).labels.wf()
        &&& forall|i: int|
            0 <= i < self.processors@.len() ==> (#[trigger] self.processors@[i]).stage_stats.wf()
        &&& ids_in_turn(processor_views(self.processors@), self.processor_seq)
    }

    /// A registry at the given time.
    pub fn new_at(now: i64) -> (registry: MetricsRegistry<V>)
        ensures
            registry.wf(),
            registry@ == blank::<V>(now),
    {
        let registry = MetricsRegistry {
            role: "unknown".to_owned(),
            node_name: "unknown".to_owned(),
            started_at: now,
            metrics: TextMap::new(),
            logs: RingBuffer::new(DEFAULT_LOG_CAPACITY),
            processors: Vec::new(),
            concurrent_tasks: 0,
            processor_seq: 0,
        };
        assert(registry@ =~= blank::<V>(now));
        registry
    }

    /// A registry, started now.
    pub fn new() -> (registry: MetricsRegistry<V>)
        ensures
            registry.wf(),
            exists|time: SystemTime| registry@ == blank::<V>(#[trigger] epoch_millis(time)),
    {
        Self::new_at(now_millis())
    }

    /// Says which node this is, at the given time.
    pub fn init_at(&mut self, now: i64, role: &str, node_name: &str, concurrent_tasks: usize)
        requires
            old(self).wf(),
        ensures
            final(self).wf(),
            final(self)@ == (Registry {
                role: role@,
                node_name: node_name@,
                started_at: now,
                concurrent_tasks,
                ..old(self)@
            }),
    {
        self.role = role.to_owned();
        self.node_name = node_name.to_owned();
        self.started_at = now;
        self.concurrent_tasks = concurrent_tasks;
    }

    /// Adds a sample to a metric, which starts as one of `kind`.
    fn store_sample(&mut self, name: &str, kind: MetricKind, labels: Labels, now: i64, value: V)
        requires
            old(self).wf(),
            labels.wf(),
        ensures
            final(self).wf(),
            final(self)@ == with_sample(old(self)@, name@, kind, labels, now, value),
    {
        let ghost before = *self;
        let key = make_key(name, &labels);
        let ghost start = empty_metric::<V>(name@, kind, labels);
        let mut entry = match self.metrics.remove(key.as_str()) {
            Some(entry) => entry,
            None => MetricEntry::new(name, kind, labels, DEFAULT_SAMPLE_CAPACITY),
        };
        entry.record(now, value);
        self.metrics.insert(key, entry);
        proof {
            assert(self@.metrics =~= sampled(before@.metrics, key@, start, now, value));
            assert(self@ =~= with_sample(before@, name@, kind, labels, now, value));
        }
    }

    /// Records the value of a gauge at the given time.
    pub fn record_gauge_at(&mut self, now: i64, name: &str, value: V, labels: Labels)
        requires
            old(self).wf(),
            labels.wf(),
        ensures
            final(self).wf(),
            final(self)@ == with_sample(old(self)@, name@, MetricKind::Gauge, labels, now, value),
    {
        self.store_sample(name, MetricKind::Gauge, labels, now, value);
    }

    /// Records the value of a gauge.
    pub fn record_gauge(&mut self, name: &str, value: V, labels: Labels)
        requires
            old(self).wf(),
            labels.wf(),
        ensures
            final(self).wf(),
            exists|time: SystemTime|
                final(self)@ == with_sample(
                    old(self)@,
                    name@,
                    MetricKind::Gauge,
                    labels,
                    #[trigger] epoch_millis(time),
                    value,
                ),
    {
        self.record_gauge_at(now_millis(), name, value, labels);
    }

    /// Records a value of a histogram at the given time.
    pub fn record_histogram_at(&mut self, now: i64, name: &str, value: V, labels: Labels)
        requires
            old(self).wf(),
            labels.wf(),
        ensures
            final(self).wf(),
            final(self)@ == with_sample(
                old(self)@,
                name@,
                MetricKind::Histogram,
                labels,
                now,
                value,
            ),
    {
        self.store_sample(name, MetricKind::Histogram, labels, now, value);
    }

    /// Records a value of a histogram, such as a duration.
    pub fn record_histogram(&mut self, name: &str, value: V, labels: Labels)
        requires
            old(self).wf(),
            labels.wf(),
        ensures
            final(self).wf(),
            exists|time: SystemTime|
                final(self)@ == with_sample(
                    old(self)@,
                    name@,
                    MetricKind::Histogram,
                    labels,
                    #[trigger] epoch_millis(time),
                    value,
                ),
    {
        self.record_histogram_at(now_millis(), name, value, labels);
    }

    /// Adds to a counter at the given time.
    pub fn increment_counter_at(&mut self, now: i64, name: &str, delta: V, labels: Labels)
        requires
            old(self).wf(),
            labels.wf(),
            summable::<V>(),
        ensures
            final(self).wf(),
            incremented(old(self)@, name@, labels, now, delta, final(self)@),
    {
        let ghost before = self@;
        let key = make_key(name, &labels);
        let zero = V::default();
        let current = match self.metrics.get(key.as_str()) {
            Some(entry) => match entry.latest_value() {
                Some(value) => value,
                None => zero,
            },
            None => zero,
        };
        let sum = current + delta;
        proof {
            assert(current == counted(before, key@, zero));
            assert(call_ensures(V::default, (), zero));
            assert(call_ensures(V::add, (counted(before, key@, zero), delta), sum));
        }
        self.store_sample(name, MetricKind::Counter, labels, now, sum);
    }

    /// Adds to a counter.
    pub fn increment_counter(&mut self, name: &str, delta: V, labels: Labels)
        requires
            old(self).wf(),
            labels.wf(),
            summable::<V>(),
        ensures
            final(self).wf(),
            exists|time: SystemTime|
                incremented(
                    old(self)@,
                    name@,
                    labels,
                    #[trigger] epoch_millis(time),
                    delta,
                    final(self)@,
                ),
    {
        self.increment_counter_at(now_millis(), name, delta, labels);
    }

    /// The keys of the metrics, in ascending order.
    pub closed spec fn metric_keys(&self) -> Seq<Seq<char>> {
        self.metrics.keys()
    }

    /// The newest value of every metric, in the order of their keys.
    pub fn all_metrics_snapshot(&self) -> (snapshots: Vec<MetricSnapshot<V>>)
        requires
            self.wf(),
        ensures
            snapshots@.len() == self.metric_keys().len(),
            forall|i: int|
                0 <= i < snapshots@.len() ==> shows(
                    #[trigger] snapshots@[i],
                    self@.metrics[self.metric_keys()[i]],
                ),
    {
        let mut snapshots: Vec<MetricSnapshot<V>> = Vec::new();
        let n: usize = self.metrics.len();
        let mut i: usize = 0;
        while i < n
            invariant
                self.wf(),
                n == self.metric_keys().len(),
                i <= n,
                snapshots@.len() == i,
                forall|j: int|
                    0 <= j < i ==> shows(
                        #[trigger] snapshots@[j],
                        self@.metrics[self.metric_keys()[j]],
                    ),
            decreases n - i,
        {
            let (_, entry) = self.metrics.entry(i);
            snapshots.push(MetricSnapshot::of(entry));
            i = i + 1;
        }
        snapshots
    }

    /// Every metric has one key, and the keys come in ascending order.
    pub proof fn lemma_metric_keys(&self)
        requires
            self.wf(),
        ensures
            ascending_texts(self.metric_keys()),
            forall|key: Seq<char>| #[trigger]
                self.metric_keys().contains(key) <==> self@.metrics.dom().contains(key),
    {
        self.metrics.lemma_keys();
        assert(self@.metrics.dom() =~= self.metrics@.dom());
    }
}

/// The newest value of the metric of `key`; `zero` where there is none.
pub open spec fn counted<V>(registry: Registry<V>, key: Seq<char>, zero: V) -> V {
    if registry.metrics.dom().contains(key) {
        match latest(registry.metrics[key].samples) {
            Some(sample) => sample.value,
            None => zero,
        }
    } else {
        zero
    }
}

/// `after` is `registry` with `delta` added to a counter.
pub open spec fn incremented<V: Copy + Default + Add<Output = V>>(
    registry: Registry<V>,
    name: Seq<char>,
    labels: Labels,
    now: i64,
    delta: V,
    after: Registry<V>,
) -> bool {
    exists|zero: V, sum: V|
        {
            &&& #[trigger] call_ensures(V::default, (), zero)
            &&& #[trigger] call_ensures(
                V::add,
                (counted(registry, key_of(name, labels), zero), delta),
                sum,
            )
            &&& after == with_sample(registry, name, MetricKind::Counter, labels, now, sum)
        }
}

/// The registry with one more log entry; it takes the place of the oldest one where there
/// is no room.
pub open spec fn logged<V>(registry: Registry<V>, entry: LogRecord) -> Registry<V> {
    Registry { logs: newest(registry.logs.push(entry), DEFAULT_LOG_CAPACITY as nat), ..registry }
}

/// The entries of a level, or all.
pub open spec fn selected(logs: Seq<LogRecord>, level: Option<Seq<char>>) -> Seq<LogRecord> {
    match level {
        Some(level) => of_level(logs, level),
        None => logs,
    }
}

/// The entries that references stand for.
pub open spec fn ref_views(logs: Seq<&LogEntry>) -> Seq<LogRecord> {
    logs.map_values(|entry: &LogEntry| (*entry)@)
}

/// The entries of a level.
fn select_level<'a>(entries: Vec<&'a LogEntry>, level: &str) -> (kept: Vec<&'a LogEntry>)
    ensures
        ref_views(kept@) == of_level(ref_views(entries@), level@),
        forall|i: int| 0 <= i < kept@.len() ==> entries@.contains(#[trigger] kept@[i]),
{
    let wanted = level.to_owned();
    let ghost all = ref_views(entries@);
    let mut kept: Vec<&'a LogEntry> = Vec::new();
    let mut i: usize = 0;
    assert(ref_views(kept@) =~= of_level(all.take(0), level@));
    while i < entries.len()
        invariant
            i <= entries@.len(),
            wanted@ == level@,
            all == ref_views(entries@),
            ref_views(kept@) == of_level(all.take(i as int), level@),
            forall|j: int| 0 <= j < kept@.len() ==> entries@.contains(#[trigger] kept@[j]),
        decreases entries@.len() - i,
    {
        let ghost before = kept@;
        let entry: &'a LogEntry = entries[i];
        proof {
            assert(all.take(i + 1).drop_last() =~= all.take(i as int));
            assert(all.take(i + 1).last() == entry@);
        }
        if entry.level == wanted {
            kept.push(entry);
            assert(ref_views(kept@) =~= ref_views(before).push(entry@));
        }
        i = i + 1;
    }
    assert(all.take(i as int) =~= all);
    kept
}

impl<V: Copy + Default + Add<Output = V>> MetricsRegistry<V> {
    /// Adds a log entry at the given time.
    pub fn log_at(&mut self, now: i64, level: &str, stage: &str, message: &str, labels: Labels)
        requires
            old(self).wf(),
            labels.wf(),
        ensures
            final(self).wf(),
            final(self)@ == logged(
                old(self)@,
                (LogRecord {
                    timestamp: now,
                    level: level@,
                    stage: stage@,
                    message: message@,
                    labels: labels@,
                }),
            ),
    {
        let ghost before = *self;
        let entry = LogEntry {
            timestamp: now,
            level: level.to_owned(),
            stage: stage.to_owned(),
            message: message.to_owned(),
            labels,
        };
        let ghost added = entry;
        self.logs.push(entry);
        proof {
            assert(log_views(before.logs@.push(added)) =~= before@.logs.push(added@));
            assert(self@ =~= logged(before@, added@));
        }
    }

    /// Adds a log entry.
    pub fn log(&mut self, level: &str, stage: &str, message: &str, labels: Labels)
        requires
            old(self).wf(),
            labels.wf(),
        ensures
            final(self).wf(),
            exists|time: SystemTime|
                final(self)@ == logged(
                    old(self)@,
                    (LogRecord {
                        timestamp: #[trigger] epoch_millis(time),
                        level: level@,
                        stage: stage@,
                        message: message@,
                        labels: labels@,
                    }),
                ),
    {
        self.log_at(now_millis(), level, stage, message, labels);
    }

    /// The newest log entries, the oldest first: at most `limit`, of one level where one
    /// is given.
    pub fn recent_logs(&self, limit: usize, level_filter: Option<&str>) -> (entries: Vec<&LogEntry>)
        requires
            self.wf(),
        ensures
            ref_views(entries@) == newest(
                selected(self@.logs, opt_text(level_filter)),
                limit as nat,
            ),
            forall|i: int| 0 <= i < entries@.len() ==> (#[trigger] entries@[i]).labels.wf(),
    {
        let held = self.logs.to_vec();
        assert(ref_views(held@) =~= self@.logs);
        let filtered = match level_filter {
            Some(level) => select_level(held, level),
            None => held,
        };
        assert(forall|i: int|
            0 <= i < filtered@.len() ==> (#[trigger] filtered@[i]).labels.wf());
        let start: usize = if filtered.len() > limit {
            filtered.len() - limit
        } else {
            0
        };
        let mut entries: Vec<&LogEntry> = Vec::new();
        let mut i: usize = start;
        while i < filtered.len()
            invariant
                start <= i <= filtered@.len(),
                entries@ =~= filtered@.subrange(start as int, i as int),
            decreases filtered@.len() - i,
        {
            entries.push(filtered[i]);
            i = i + 1;
        }
        assert(ref_views(entries@) =~= newest(ref_views(filtered@), limit as nat));
        assert forall|j: int| 0 <= j < entries@.len() implies (
        #[trigger] entries@[j]).labels.wf() by {
            assert(entries@[j] == filtered@[start + j]);
        }
        entries
    }
}

/// `after` is `registry` after a call of `stage` for the processor `id`; there is no
/// change where there is no such processor.
pub open spec fn updated<V: Copy + Default + Add<Output = V>>(
    registry: Registry<V>,
    now: i64,
    id: Seq<char>,
    stage: Seq<char>,
    work: Work,
    duration: V,
    after: Registry<V>,
) -> bool {
    match first_with_id(registry.processors, id) {
        Some(i) => {
            &&& worked(registry.processors[i], now, stage, work, duration, after.processors[i])
            &&& after == Registry {
                processors: registry.processors.update(i, after.processors[i]),
                ..registry
            }
        },
        None => after == registry,
    }
}

/// `after` is `registry` with the processor `id` finished; there is no change where there
/// is no such processor.
pub open spec fn ended<V: Copy + Default + Add<Output = V>>(
    registry: Registry<V>,
    now: i64,
    id: Seq<char>,
    duration: V,
    after: Registry<V>,
) -> bool {
    match first_with_id(registry.processors, id) {
        Some(i) => {
            &&& finished(registry.processors[i], now, duration, after.processors[i])
            &&& after == Registry {
                processors: registry.processors.update(i, after.processors[i]),
                ..registry
            }
        },
        None => after == registry,
    }
}

/// The registry with one more processor, which takes the next identifier.
pub open spec fn with_processor<V>(
    registry: Registry<V>,
    now: i64,
    job_id: Seq<char>,
    so_path: Seq<char>,
    fn_name: Seq<char>,
    partition: usize,
    key: Option<Seq<char>>,
    duration: V,
) -> Registry<V> {
    Registry {
        processors: registry.processors.push(
            fresh_processor(
                processor_id((registry.processor_seq + 1) as nat, partition as nat),
                now,
                job_id,
                so_path,
                fn_name,
                partition,
                key,
                duration,
            ),
        ),
        processor_seq: (registry.processor_seq + 1) as u64,
        ..registry
    }
}

/// An optional text.
pub open spec fn opt_text(text: Option<&str>) -> Option<Seq<char>> {
    match text {
        Some(text) => Some(text@),
        None => None,
    }
}

impl<V: Copy + Default + Add<Output = V>> MetricsRegistry<V> {
    /// The processors got their identifiers in turn, and no two have the same.
    pub proof fn lemma_ids(&self)
        requires
            self.wf(),
        ensures
            ids_in_turn(self@.processors, self@.processor_seq),
    {
    }

    /// Every metric keeps at most the default number of samples.
    pub proof fn lemma_bounded(&self)
        requires
            self.wf(),
        ensures
            forall|key: Seq<char>| #[trigger]
                self@.metrics.dom().contains(key) ==> {
                    &&& self@.metrics[key].bound == DEFAULT_SAMPLE_CAPACITY
                    &&& self@.metrics[key].samples.len() <= DEFAULT_SAMPLE_CAPACITY
                },
    {
        assert forall|key: Seq<char>| #[trigger] self@.metrics.dom().contains(key) implies {
            &&& self@.metrics[key].bound == DEFAULT_SAMPLE_CAPACITY
            &&& self@.metrics[key].samples.len() <= DEFAULT_SAMPLE_CAPACITY
        } by {
            assert(self.metrics@.dom().contains(key));
            self.metrics@[key].samples.lemma_bounded();
        }
    }

    /// The default number of log entries is kept at most.
    pub proof fn lemma_logs_bounded(&self)
        requires
            self.wf(),
        ensures
            self@.logs.len() <= DEFAULT_LOG_CAPACITY,
    {
        self.logs.lemma_bounded();
    }

    /// Adds a processor at the given time, and gives its identifier.
    pub fn add_processor_at(
        &mut self,
        now: i64,
        job_id: &str,
        so_path: &str,
        fn_name: &str,
        partition: usize,
        key: Option<&str>,
        init_duration_ms: V,
    ) -> (id: String)
        requires
            old(self).wf(),
            old(self)@.processor_seq < u64::MAX,
        ensures
            final(self).wf(),
            final(self)@ == with_processor(
                old(self)@,
                now,
                job_id@,
                so_path@,
                fn_name@,
                partition,
                opt_text(key),
                init_duration_ms,
            ),
            id@ == final(self)@.processors.last().id,
            forall|i: int|
                0 <= i < old(self)@.processors.len() ==> (#[trigger] old(self)@.processors[i]).id
                    != id@,
    {
        let ghost before = self@;
        self.processor_seq = self.processor_seq + 1;
        let id = make_processor_id(self.processor_seq, partition);
        let p = ProcessorInfo::fresh(
            id.clone(),
            now,
            job_id,
            so_path,
            fn_name,
            partition,
            key,
            init_duration_ms,
        );
        let ghost added = p@;
        self.processors.push(p);
        proof {
            let after = processor_views(self.processors@);
            assert(after =~= before.processors.push(added));
            lemma_next_id(before.processors, before.processor_seq, added);
            assert(self@ =~= with_processor(
                before,
                now,
                job_id@,
                so_path@,
                fn_name@,
                partition,
                opt_text(key),
                init_duration_ms,
            ));
        }
        id
    }

    /// Counts a call of `stage` for a processor at the given time.
    pub fn update_processor_at(
        &mut self,
        now: i64,
        id: &str,
        stage: &str,
        rows_in: u64,
        rows_out: u64,
        bytes_in: u64,
        bytes_out: u64,
        duration_ms: V,
    )
        requires
            old(self).wf(),
            summable::<V>(),
            first_with_id(old(self)@.processors, id@) matches Some(i) ==> has_room(
                old(self)@.processors[i],
                stage@,
                (Work { rows_in, rows_out, bytes_in, bytes_out }),
            ),
        ensures
            final(self).wf(),
            updated(
                old(self)@,
                now,
                id@,
                stage@,
                (Work { rows_in, rows_out, bytes_in, bytes_out }),
                duration_ms,
                final(self)@,
            ),
    {
        let ghost before = *self;
        proof {
            lemma_first_with_id(self@.processors, id@);
        }
        if let Some(i) = find_processor(&self.processors, id) {
            self.processors[i].work(
                now,
                stage,
                Work { rows_in, rows_out, bytes_in, bytes_out },
                duration_ms,
            );
            proof {
                let after = processor_views(self.processors@);
                assert(after =~= before@.processors.update(i as int, after[i as int]));
                lemma_ids_kept(before@.processors, before@.processor_seq, i as int, after[i as int]);
                assert(self@ =~= Registry {
                    processors: before@.processors.update(i as int, after[i as int]),
                    ..before@
                });
            }
        }
    }

    /// Marks a processor as finished at the given time.
    pub fn finish_processor_at(&mut self, now: i64, id: &str, duration_ms: V)
        requires
            old(self).wf(),
            summable::<V>(),
            first_with_id(old(self)@.processors, id@) matches Some(i) ==> calls_before(
                old(self)@.processors[i].stage_stats,
                "finish"@,
            ) < u64::MAX,
        ensures
            final(self).wf(),
            ended(old(self)@, now, id@, duration_ms, final(self)@),
    {
        let ghost before = *self;
        proof {
            lemma_first_with_id(self@.processors, id@);
        }
        if let Some(i) = find_processor(&self.processors, id) {
            self.processors[i].finish(now, duration_ms);
            proof {
                let after = processor_views(self.processors@);
                assert(after =~= before@.processors.update(i as int, after[i as int]));
                lemma_ids_kept(before@.processors, before@.processor_seq, i as int, after[i as int]);
                assert(self@ =~= Registry {
                    processors: before@.processors.update(i as int, after[i as int]),
                    ..before@
                });
            }
        }
    }

    /// The processors, in the order in which they were added.
    pub fn get_processors(&self) -> (processors: &Vec<ProcessorInfo<V>>)
        requires
            self.wf(),
        ensures
            processor_views(processors@) == self@.processors,
            forall|i: int|
                0 <= i < processors@.len() ==> (#[trigger] processors@[i]).stage_stats.wf(),
    {
        &self.processors
    }
}

/// A processor that changes but for its identifier and its partition keeps the order of
/// identifiers.
proof fn lemma_ids_kept<V>(
    processors: Seq<Processor<V>>,
    processor_seq: u64,
    i: int,
    after: Processor<V>,
)
    requires
        ids_in_turn(processors, processor_seq),
        0 <= i < processors.len(),
        after.id == processors[i].id,
        after.partition == processors[i].partition,
    ensures
        ids_in_turn(processors.update(i, after), processor_seq),
{
    let now = processors.update(i, after);
    assert forall|j: int| 0 <= j < now.len() implies exists|seq: nat|
        seq <= processor_seq && (#[trigger] now[j]).id == #[trigger] processor_id(
            seq,
            now[j].partition as nat,
        ) by {
        let old = processors[j];
        let seq = choose|seq: nat|
            seq <= processor_seq && old.id == #[trigger] processor_id(seq, old.partition as nat);
        assert(now[j].id == processor_id(seq, now[j].partition as nat));
    }
    assert forall|a: int, b: int|
        #![trigger now[a], now[b]]
        0 <= a < b < now.len() implies now[a].id != now[b].id by {
        assert(processors[a].id != processors[b].id);
    }
}

/// The next identifier is new.
proof fn lemma_next_id<V>(processors: Seq<Processor<V>>, processor_seq: u64, added: Processor<V>)
    requires
        ids_in_turn(processors, processor_seq),
        processor_seq < u64::MAX,
        added.id == processor_id((processor_seq + 1) as nat, added.partition as nat),
    ensures
        ids_in_turn(processors.push(added), (processor_seq + 1) as u64),
        forall|i: int| 0 <= i < processors.len() ==> (#[trigger] processors[i]).id != added.id,
{
    let now = processors.push(added);
    assert forall|i: int| 0 <= i < processors.len() implies (#[trigger] processors[i]).id
        != added.id by {
        let p = processors[i];
        let seq = choose|seq: nat|
            seq <= processor_seq && p.id == #[trigger] processor_id(seq, p.partition as nat);
        lemma_id_injective(
            seq,
            p.partition as nat,
            (processor_seq + 1) as nat,
            added.partition as nat,
        );
    }
    assert forall|j: int| 0 <= j < now.len() implies exists|seq: nat|
        seq <= (processor_seq + 1) as u64 && (#[trigger] now[j]).id == #[trigger] processor_id(
            seq,
            now[j].partition as nat,
        ) by {
        if j < processors.len() {
            let p = processors[j];
            let seq = choose|seq: nat|
                seq <= processor_seq && p.id == #[trigger] processor_id(seq, p.partition as nat);
            assert(now[j].id == processor_id(seq, now[j].partition as nat));
        } else {
            assert(now[j].id == processor_id(
                (processor_seq + 1) as nat,
                now[j].partition as nat,
            ));
        }
    }
    assert forall|a: int, b: int|
        #![trigger now[a], now[b]]
        0 <= a < b < now.len() implies now[a].id != now[b].id by {
        if b < processors.len() {
            assert(processors[a].id != processors[b].id);
        } else {
            assert(processors[a].id != added.id);
        }
    }
}

/// The samples of the metrics called `name` among `keys` that are not older than `since`.
pub open spec fn named_samples<V>(
    metrics: Map<Seq<char>, Metric<V>>,
    keys: Seq<Seq<char>>,
    name: Seq<char>,
    since: i64,
) -> Seq<MetricSample<V>>
    decreases keys.len(),
{
    if keys.len() == 0 {
        Seq::empty()
    } else {
        let before = named_samples(metrics, keys.drop_last(), name, since);
        let metric = metrics[keys.last()];
        if metric.name == name {
            before + samples_since(metric.samples, since)
        } else {
            before
        }
    }
}

/// A processor stays where it is not done, or was active less than `max_age_ms` ago.
pub open spec fn stays<V>(p: Processor<V>, now: i64, max_age_ms: i64) -> bool {
    p.stage != "done"@ || now - p.last_activity_at < max_age_ms
}

/// The processors that stay, in their order.
pub open spec fn staying<V>(processors: Seq<Processor<V>>, now: i64, max_age_ms: i64) -> Seq<
    Processor<V>,
>
    decreases processors.len(),
{
    if processors.len() == 0 {
        Seq::empty()
    } else {
        let before = staying(processors.drop_last(), now, max_age_ms);
        if stays(processors.last(), now, max_age_ms) {
            before.push(processors.last())
        } else {
            before
        }
    }
}

/// A metric stays where its newest sample is less than `max_age_ms` old.
pub open spec fn current<V>(metric: Metric<V>, now: i64, max_age_ms: i64) -> bool {
    match latest(metric.samples) {
        Some(sample) => now - sample.timestamp < max_age_ms,
        None => false,
    }
}

/// The metrics that stay.
pub open spec fn current_metrics<V>(
    metrics: Map<Seq<char>, Metric<V>>,
    now: i64,
    max_age_ms: i64,
) -> Map<Seq<char>, Metric<V>> {
    metrics.restrict(
        Set::new(|key: Seq<char>| metrics.dom().contains(key) && current(
            metrics[key],
            now,
            max_age_ms,
        )),
    )
}

/// The number of processors that are not done.
pub open spec fn active_count<V>(processors: Seq<Processor<V>>) -> nat
    decreases processors.len(),
{
    if processors.len() == 0 {
        0
    } else if processors.last().stage != "done"@ {
        active_count(processors.drop_last()) + 1
    } else {
        active_count(processors.drop_last())
    }
}

/// Appends samples.
fn append_samples<V: Copy>(all: &mut Vec<MetricSample<V>>, more: &Vec<MetricSample<V>>)
    ensures
        final(all)@ == old(all)@ + more@,
{
    let ghost before = all@;
    let mut i: usize = 0;
    while i < more.len()
        invariant
            i <= more@.len(),
            all@ =~= before + more@.take(i as int),
        decreases more@.len() - i,
    {
        all.push(more[i]);
        i = i + 1;
    }
}

/// A node at a glance.
#[derive(Debug)]
pub struct NodeOverview<V> {
    pub role: String,
    pub node_name: String,
    pub started_at: i64,
    /// How long the node has been up.
    pub uptime_ms: i128,
    pub metrics: Vec<MetricSnapshot<V>>,
    /// The number of processors that are not done.
    pub processor_count: usize,
    /// The number of processors ever made, those included that are done or forgotten.
    pub processor_total: u64,
    pub concurrent_tasks: usize,
}

/// `overview` shows `registry`, whose metrics have `keys`, at the given time.
pub open spec fn overview_shows<V>(
    overview: NodeOverview<V>,
    registry: Registry<V>,
    keys: Seq<Seq<char>>,
    now: i64,
) -> bool {
    &&& overview.role@ == registry.role
    &&& overview.node_name@ == registry.node_name
    &&& overview.started_at == registry.started_at
    &&& overview.uptime_ms == now - registry.started_at
    &&& overview.metrics@.len() == keys.len()
    &&& forall|i: int|
        0 <= i < keys.len() ==> shows(#[trigger] overview.metrics@[i], registry.metrics[keys[i]])
    &&& overview.processor_count == active_count(registry.processors)
    &&& overview.processor_total == registry.processor_seq
    &&& overview.concurrent_tasks == registry.concurrent_tasks
}

impl<V: Copy + Default + Add<Output = V>> MetricsRegistry<V> {
    /// The samples of all metrics of a name that are not older than `since`, in the order
    /// of their times.
    pub fn metric_history(&self, name: &str, since: i64) -> (samples: Vec<MetricSample<V>>)
        requires
            self.wf(),
        ensures
            time_sorted(
                named_samples(self@.metrics, self.metric_keys(), name@, since),
                samples@,
            ),
    {
        let wanted = name.to_owned();
        let ghost keys = self.metric_keys();
        let ghost metrics = self@.metrics;
        let mut found: Vec<MetricSample<V>> = Vec::new();
        let n: usize = self.metrics.len();
        let mut i: usize = 0;
        assert(keys.take(0) =~= Seq::<Seq<char>>::empty());
        while i < n
            invariant
                self.wf(),
                n == keys.len(),
                i <= n,
                wanted@ == name@,
                keys == self.metric_keys(),
                metrics == self@.metrics,
                found@ == named_samples(metrics, keys.take(i as int), name@, since),
            decreases n - i,
        {
            let (_, entry) = self.metrics.entry(i);
            proof {
                assert(keys.take(i + 1).drop_last() =~= keys.take(i as int));
                assert(metrics[keys[i as int]] == entry@);
            }
            if entry.name == wanted {
                let samples = entry.history_since(since);
                append_samples(&mut found, &samples);
            }
            i = i + 1;
        }
        assert(keys.take(i as int) =~= keys);
        sort_by_time(&found)
    }

    /// Forgets the processors that are done and were not active for `max_age_ms`, as of
    /// the given time.
    pub fn cleanup_processors_at(&mut self, now: i64, max_age_ms: i64)
        requires
            old(self).wf(),
        ensures
            final(self).wf(),
            final(self)@ == (Registry {
                processors: staying(old(self)@.processors, now, max_age_ms),
                ..old(self)@
            }),
    {
        let ghost before = *self;
        let ghost all = self@.processors;
        let mut held: Vec<ProcessorInfo<V>> = Vec::new();
        std::mem::swap(&mut held, &mut self.processors);
        let ghost infos = held@;
        let mut kept: Vec<ProcessorInfo<V>> = Vec::new();
        assert(all.take(0) =~= Seq::<Processor<V>>::empty());
        assert(processor_views(kept@) =~= Seq::<Processor<V>>::empty());
        for p in it: held
            invariant
                it.seq() == infos,
                all == processor_views(infos),
                forall|j: int| 0 <= j < infos.len() ==> (#[trigger] infos[j]).stage_stats.wf(),
                processor_views(kept@) == staying(all.take(it.index()), now, max_age_ms),
                forall|j: int| 0 <= j < kept@.len() ==> (#[trigger] kept@[j]).stage_stats.wf(),
        {
            let ghost i = it.index();
            let ghost already = kept@;
            proof {
                assert(all.take(i + 1).drop_last() =~= all.take(i));
                assert(all[i] == p@);
            }
            let age: i128 = now as i128 - p.last_activity_at as i128;
            if !p.is_done() || age < max_age_ms as i128 {
                let ghost added = p@;
                kept.push(p);
                assert(processor_views(kept@) =~= processor_views(already).push(added));
            }
        }
        self.processors = kept;
        proof {
            assert(all.take(all.len() as int) =~= all);
            lemma_staying_ids(all, before@.processor_seq, now, max_age_ms);
            assert(self@ =~= Registry {
                processors: staying(before@.processors, now, max_age_ms),
                ..before@
            });
        }
    }

    /// Forgets the metrics whose newest sample is `max_age_ms` old or older, as of the
    /// given time.
    pub fn cleanup_metrics_at(&mut self, now: i64, max_age_ms: i64)
        requires
            old(self).wf(),
        ensures
            final(self).wf(),
            final(self)@ == (Registry {
                metrics: current_metrics(old(self)@.metrics, now, max_age_ms),
                ..old(self)@
            }),
    {
        let ghost before = *self;
        let stale = self.stale_metrics(now, max_age_ms);
        let mut i: usize = 0;
        while i < stale.len()
            invariant
                before.wf(),
                self.wf(),
                i <= stale@.len(),
                forall|key: Seq<char>| #[trigger]
                    self.metrics@.dom().contains(key) <==> before.metrics@.dom().contains(key)
                        && !text_views(stale@).take(i as int).contains(key),
                forall|key: Seq<char>| #[trigger]
                    self.metrics@.dom().contains(key) ==> self.metrics@[key]
                        == before.metrics@[key],
                self@ == (Registry { metrics: self@.metrics, ..before@ }),
            decreases stale@.len() - i,
        {
            let ghost keys = text_views(stale@);
            let ghost held = *self;
            let _ = self.metrics.remove(stale[i].as_str());
            proof {
                let done = keys.take(i as int);
                assert(keys.take(i + 1) =~= done.push(keys[i as int]));
                assert(keys[i as int] == stale@[i as int]@);
                assert forall|key: Seq<char>| #[trigger]
                    self.metrics@.dom().contains(key) <==> before.metrics@.dom().contains(key)
                        && !keys.take(i + 1).contains(key) by {
                    if done.contains(key) {
                        let j = done.index_of(key);
                        assert(keys.take(i + 1)[j] == key);
                    }
                    if key == keys[i as int] {
                        assert(keys.take(i + 1)[i as int] == key);
                    }
                    if keys.take(i + 1).contains(key) && key != keys[i as int] {
                        let j = keys.take(i + 1).index_of(key);
                        assert(done[j] == key);
                    }
                }
                assert(self@ =~= Registry { metrics: self@.metrics, ..before@ });
            }
            i = i + 1;
        }
        proof {
            let keys = text_views(stale@);
            assert(keys.take(i as int) =~= keys);
            let wanted = current_metrics(before@.metrics, now, max_age_ms);
            assert forall|key: Seq<char>| #[trigger] self@.metrics.dom().contains(key)
                <==> wanted.dom().contains(key) by {
                assert(self.metrics@.dom().contains(key) <==> before.metrics@.dom().contains(key)
                    && !keys.contains(key));
            }
            assert(self@.metrics =~= wanted);
        }
    }
}

/// The texts in a list.
pub open spec fn text_views(texts: Seq<String>) -> Seq<Seq<char>> {
    texts.map_values(|text: String| text@)
}

impl<V: Copy + Default + Add<Output = V>> MetricsRegistry<V> {
    /// The keys of the metrics that are not current.
    fn stale_metrics(&self, now: i64, max_age_ms: i64) -> (stale: Vec<String>)
        requires
            self.wf(),
        ensures
            forall|key: Seq<char>| #[trigger]
                text_views(stale@).contains(key) <==> self.metrics@.dom().contains(key) && !current(
                    self.metrics@[key]@,
                    now,
                    max_age_ms,
                ),
    {
        let ghost keys = self.metrics.keys();
        let mut stale: Vec<String> = Vec::new();
        let n: usize = self.metrics.len();
        let mut i: usize = 0;
        while i < n
            invariant
                self.wf(),
                keys == self.metrics.keys(),
                n == keys.len(),
                i <= n,
                forall|key: Seq<char>| #[trigger]
                    text_views(stale@).contains(key) <==> keys.take(i as int).contains(key)
                        && !current(self.metrics@[key]@, now, max_age_ms),
            decreases n - i,
        {
            let (key, entry) = self.metrics.entry(i);
            let is_current = match entry.latest_timestamp() {
                Some(timestamp) => {
                    let age: i128 = now as i128 - timestamp as i128;
                    age < max_age_ms as i128
                },
                None => false,
            };
            let ghost before = stale@;
            let ghost this = key@;
            if !is_current {
                stale.push(key.clone());
                assert(text_views(stale@) =~= text_views(before).push(this));
            }
            proof {
                let done = keys.take(i as int);
                let now_done = keys.take(i + 1);
                assert(now_done =~= done.push(this));
                assert forall|k: Seq<char>| #[trigger]
                    text_views(stale@).contains(k) <==> now_done.contains(k) && !current(
                        self.metrics@[k]@,
                        now,
                        max_age_ms,
                    ) by {
                    if done.contains(k) {
                        let j = done.index_of(k);
                        assert(now_done[j] == k);
                    }
                    if now_done.contains(k) && k != this {
                        let j = now_done.index_of(k);
                        assert(done[j] == k);
                    }
                    if k == this {
                        assert(now_done[i as int] == k);
                    }
                    if !is_current {
                        if text_views(before).contains(k) {
                            let j = text_views(before).index_of(k);
                            assert(text_views(stale@)[j] == k);
                        }
                        if k == this {
                            assert(text_views(stale@)[before.len() as int] == k);
                        }
                        if text_views(stale@).contains(k) && k != this {
                            let j = text_views(stale@).index_of(k);
                            assert(text_views(before)[j] == k);
                        }
                    }
                }
            }
            i = i + 1;
        }
        proof {
            assert(keys.take(i as int) =~= keys);
            self.metrics.lemma_keys();
        }
        stale
    }
}

/// The processors that stay keep the order of identifiers.
proof fn lemma_staying_ids<V>(
    processors: Seq<Processor<V>>,
    processor_seq: u64,
    now: i64,
    max_age_ms: i64,
)
    requires
        ids_in_turn(processors, processor_seq),
    ensures
        ids_in_turn(staying(processors, now, max_age_ms), processor_seq),
        forall|i: int|
            0 <= i < staying(processors, now, max_age_ms).len() ==> processors.contains(
                #[trigger] staying(processors, now, max_age_ms)[i],
            ),
    decreases processors.len(),
{
    if processors.len() > 0 {
        let init = processors.drop_last();
        let last = processors.last();
        assert(forall|j: int| 0 <= j < init.len() ==> init[j] == #[trigger] processors[j]);
        assert(ids_in_turn(init, processor_seq)) by {
            assert forall|i: int| 0 <= i < init.len() implies exists|seq: nat|
                seq <= processor_seq && (#[trigger] init[i]).id == #[trigger] processor_id(
                    seq,
                    init[i].partition as nat,
                ) by {
                assert(init[i] == processors[i]);
            }
            assert forall|a: int, b: int|
                #![trigger init[a], init[b]]
                0 <= a < b < init.len() implies init[a].id != init[b].id by {
                assert(processors[a].id != processors[b].id);
            }
        }
        lemma_staying_ids(init, processor_seq, now, max_age_ms);
        let before = staying(init, now, max_age_ms);
        let after = staying(processors, now, max_age_ms);
        assert forall|i: int| 0 <= i < after.len() implies processors.contains(
            #[trigger] after[i],
        ) by {
            if i < before.len() {
                assert(init.contains(before[i]));
                let j = init.index_of(before[i]);
                assert(processors[j] == after[i]);
            } else {
                assert(processors[processors.len() - 1] == after[i]);
            }
        }
        assert forall|i: int| 0 <= i < after.len() implies exists|seq: nat|
            seq <= processor_seq && (#[trigger] after[i]).id == #[trigger] processor_id(
                seq,
                after[i].partition as nat,
            ) by {
            let j = processors.index_of(after[i]);
            assert(processors[j] == after[i]);
        }
        assert forall|a: int, b: int|
            #![trigger after[a], after[b]]
            0 <= a < b < after.len() implies after[a].id != after[b].id by {
            if b < before.len() {
                assert(before[a].id != before[b].id);
            } else {
                assert(init.contains(before[a]));
                let j = init.index_of(before[a]);
                assert(processors[j].id != processors[processors.len() - 1].id);
            }
        }
    }
}

impl<V: Copy + Default + Add<Output = V>> MetricsRegistry<V> {
    /// The number of processors that are not done.
    fn count_active(&self) -> (n: usize)
        ensures
            n == active_count(self@.processors),
    {
        let ghost all = self@.processors;
        let mut n: usize = 0;
        let mut i: usize = 0;
        assert(all.take(0) =~= Seq::<Processor<V>>::empty());
        while i < self.processors.len()
            invariant
                all == self@.processors,
                all.len() == self.processors@.len(),
                i <= self.processors@.len(),
                n <= i,
                n == active_count(all.take(i as int)),
            decreases self.processors@.len() - i,
        {
            proof {
                assert(all.take(i + 1).drop_last() =~= all.take(i as int));
                assert(all[i as int] == self.processors@[i as int]@);
            }
            if !self.processors[i].is_done() {
                n = n + 1;
            }
            i = i + 1;
        }
        assert(all.take(i as int) =~= all);
        n
    }

    /// How long the node has been up at the given time, in milliseconds.
    pub fn uptime_at(&self, now: i64) -> (uptime_ms: i128)
        ensures
            uptime_ms == now - self@.started_at,
    {
        now as i128 - self.started_at as i128
    }

    /// The node at a glance at the given time.
    pub fn overview_at(&self, now: i64) -> (overview: NodeOverview<V>)
        requires
            self.wf(),
        ensures
            overview_shows(overview, self@, self.metric_keys(), now),
    {
        NodeOverview {
            role: self.role.clone(),
            node_name: self.node_name.clone(),
            started_at: self.started_at,
            uptime_ms: self.uptime_at(now),
            metrics: self.all_metrics_snapshot(),
            processor_count: self.count_active(),
            processor_total: self.processor_seq,
            concurrent_tasks: self.concurrent_tasks,
        }
    }

    /// The node at a glance.
    pub fn overview(&self) -> (overview: NodeOverview<V>)
        requires
            self.wf(),
        ensures
            exists|time: SystemTime|
                overview_shows(
                    overview,
                    self@,
                    self.metric_keys(),
                    #[trigger] epoch_millis(time),
                ),
    {
        self.overview_at(now_millis())
    }

    /// Says which node this is, and that it starts now.
    pub fn init(&mut self, role: &str, node_name: &str, concurrent_tasks: usize)
        requires
            old(self).wf(),
        ensures
            final(self).wf(),
            exists|time: SystemTime|
                final(self)@ == (Registry {
                    role: role@,
                    node_name: node_name@,
                    started_at: #[trigger] epoch_millis(time),
                    concurrent_tasks,
                    ..old(self)@
                }),
    {
        self.init_at(now_millis(), role, node_name, concurrent_tasks);
    }

    /// Adds a processor, and gives its identifier.
    pub fn add_processor(
        &mut self,
        job_id: &str,
        so_path: &str,
        fn_name: &str,
        partition: usize,
        key: Option<&str>,
        init_duration_ms: V,
    ) -> (id: String)
        requires
            old(self).wf(),
            old(self)@.processor_seq < u64::MAX,
        ensures
            final(self).wf(),
            exists|time: SystemTime|
                final(self)@ == with_processor(
                    old(self)@,
                    #[trigger] epoch_millis(time),
                    job_id@,
                    so_path@,
                    fn_name@,
                    partition,
                    opt_text(key),
                    init_duration_ms,
                ),
            id@ == final(self)@.processors.last().id,
            forall|i: int|
                0 <= i < old(self)@.processors.len() ==> (#[trigger] old(self)@.processors[i]).id
                    != id@,
    {
        self.add_processor_at(
            now_millis(),
            job_id,
            so_path,
            fn_name,
            partition,
            key,
            init_duration_ms,
        )
    }

    /// Counts a call of `stage` for a processor.
    pub fn update_processor(
        &mut self,
        id: &str,
        stage: &str,
        rows_in: u64,
        rows_out: u64,
        bytes_in: u64,
        bytes_out: u64,
        duration_ms: V,
    )
        requires
            old(self).wf(),
            summable::<V>(),
            first_with_id(old(self)@.processors, id@) matches Some(i) ==> has_room(
                old(self)@.processors[i],
                stage@,
                (Work { rows_in, rows_out, bytes_in, bytes_out }),
            ),
        ensures
            final(self).wf(),
            exists|time: SystemTime|
                updated(
                    old(self)@,
                    #[trigger] epoch_millis(time),
                    id@,
                    stage@,
                    (Work { rows_in, rows_out, bytes_in, bytes_out }),
                    duration_ms,
                    final(self)@,
                ),
    {
        self.update_processor_at(
            now_millis(),
            id,
            stage,
            rows_in,
            rows_out,
            bytes_in,
            bytes_out,
            duration_ms,
        );
    }

    /// Marks a processor as finished.
    pub fn finish_processor(&mut self, id: &str, duration_ms: V)
        requires
            old(self).wf(),
            summable::<V>(),
            first_with_id(old(self)@.processors, id@) matches Some(i) ==> calls_before(
                old(self)@.processors[i].stage_stats,
                "finish"@,
            ) < u64::MAX,
        ensures
            final(self).wf(),
            exists|time: SystemTime|
                ended(
                    old(self)@,
                    #[trigger] epoch_millis(time),
                    id@,
                    duration_ms,
                    final(self)@,
                ),
    {
        self.finish_processor_at(now_millis(), id, duration_ms);
    }

    /// Forgets the processors that are done and were not active for `max_age_ms`.
    pub fn cleanup_processors(&mut self, max_age_ms: i64)
        requires
            old(self).wf(),
        ensures
            final(self).wf(),
            exists|time: SystemTime|
                final(self)@.processors == staying(
                    old(self)@.processors,
                    #[trigger] epoch_millis(time),
                    max_age_ms,
                ),
            final(self)@ == (Registry { processors: final(self)@.processors, ..old(self)@ }),
    {
        self.cleanup_processors_at(now_millis(), max_age_ms);
    }

    /// Forgets the metrics whose newest sample is `max_age_ms` old or older.
    pub fn cleanup_metrics(&mut self, max_age_ms: i64)
        requires
            old(self).wf(),
        ensures
            final(self).wf(),
            exists|time: SystemTime|
                final(self)@.metrics == current_metrics(
                    old(self)@.metrics,
                    #[trigger] epoch_millis(time),
                    max_age_ms,
                ),
            final(self)@ == (Registry { metrics: final(self)@.metrics, ..old(self)@ }),
    {
        self.cleanup_metrics_at(now_millis(), max_age_ms);
    }
}

/// `after` is `before` after one operation: either a processor was added, and its
/// identifier was given out, or the number of processors ever made is as it was.
pub open spec fn follows<V>(
    before: Registry<V>,
    after: Registry<V>,
    given_out: Option<Seq<char>>,
) -> bool {
    match given_out {
        Some(id) => {
            &&& before.processor_seq < u64::MAX
            &&& exists|
                now: i64,
                job_id: Seq<char>,
                so_path: Seq<char>,
                fn_name: Seq<char>,
                partition: usize,
                key: Option<Seq<char>>,
                duration: V,
            |
                after == #[trigger] with_processor(
                    before,
                    now,
                    job_id,
                    so_path,
                    fn_name,
                    partition,
                    key,
                    duration,
                )
            &&& id == after.processors.last().id
        },
        None => after.processor_seq == before.processor_seq,
    }
}

/// `states` is the life of a registry, each state after the first by one operation;
/// `given_out` holds the identifiers that the operations gave out.
pub open spec fn is_life<V>(states: Seq<Registry<V>>, given_out: Seq<Option<Seq<char>>>) -> bool {
    &&& states.len() == given_out.len() + 1
    &&& forall|i: int|
        0 <= i < given_out.len() ==> follows(states[i], states[i + 1], #[trigger] given_out[i])
}

/// The number of identifiers in a list.
pub open spec fn ids_given(given_out: Seq<Option<Seq<char>>>) -> nat
    decreases given_out.len(),
{
    if given_out.len() == 0 {
        0
    } else {
        ids_given(given_out.drop_last()) + if given_out.last() is Some {
            1nat
        } else {
            0nat
        }
    }
}

/// Over the life of a registry that starts without processors, the `n`-th processor gets
/// the number `n` in its identifier, and no identifier is given out twice, whatever was
/// finished or cleaned up in between.
pub proof fn lemma_ids_never_repeat<V>(
    states: Seq<Registry<V>>,
    given_out: Seq<Option<Seq<char>>>,
)
    requires
        is_life(states, given_out),
        states[0].processor_seq == 0,
    ensures
        states.last().processor_seq == ids_given(given_out),
        forall|i: int|
            0 <= i < given_out.len() && (#[trigger] given_out[i]) is Some ==> exists|partition: nat|
                given_out[i] == Some(
                    #[trigger] processor_id(ids_given(given_out.take(i + 1)), partition),
                ),
        forall|i: int, j: int|
            #![trigger given_out[i], given_out[j]]
            0 <= i < j < given_out.len() && given_out[i] is Some && given_out[j] is Some
                ==> given_out[i] != given_out[j],
    decreases given_out.len(),
{
    if given_out.len() > 0 {
        let n = given_out.len() - 1;
        let before = given_out.drop_last();
        let earlier = states.drop_last();
        assert forall|i: int| 0 <= i < before.len() implies follows(
            earlier[i],
            earlier[i + 1],
            #[trigger] before[i],
        ) by {
            assert(before[i] == given_out[i]);
        }
        lemma_ids_never_repeat(earlier, before);
        assert(follows(states[n], states[n + 1], given_out[n]));
        assert(earlier.last() == states[n]);
        assert(given_out.take(n + 1) =~= given_out);
        if given_out[n] is Some {
            let last = states[n + 1].processors.last();
            assert(given_out[n] == Some(
                processor_id(ids_given(given_out), last.partition as nat),
            ));
        }
        assert forall|i: int|
            0 <= i < given_out.len() && (#[trigger] given_out[i]) is Some implies exists|
            partition: nat,
        |
            given_out[i] == Some(
                #[trigger] processor_id(ids_given(given_out.take(i + 1)), partition),
            ) by {
            if i < n {
                assert(before[i] == given_out[i]);
                assert(before.take(i + 1) =~= given_out.take(i + 1));
            }
        }
        assert forall|i: int, j: int|
            #![trigger given_out[i], given_out[j]]
            0 <= i < j < given_out.len() && given_out[i] is Some
                && given_out[j] is Some implies given_out[i] != given_out[j] by {
            if j < n {
                assert(before[i] == given_out[i]);
                assert(before[j] == given_out[j]);
            } else {
                let a = ids_given(given_out.take(i + 1));
                let p = choose|p: nat| given_out[i] == Some(#[trigger] processor_id(a, p));
                let q = states[n + 1].processors.last().partition as nat;
                lemma_given_grows(before, i + 1);
                assert(before.take(i + 1) =~= given_out.take(i + 1));
                lemma_id_injective(a, p, ids_given(given_out), q);
            }
        }
    }
}

/// No more identifiers are in the first part of a list than in all of it.
proof fn lemma_given_grows(given_out: Seq<Option<Seq<char>>>, i: int)
    requires
        0 <= i <= given_out.len(),
    ensures
        ids_given(given_out.take(i)) <= ids_given(given_out),
    decreases given_out.len(),
{
    if i < given_out.len() {
        lemma_given_grows(given_out.drop_last(), i);
        assert(given_out.drop_last().take(i) =~= given_out.take(i));
    } else {
        assert(given_out.take(i) =~= given_out);
    }
}

/// What was recorded last of a metric is its newest value, and the other metrics, the
/// logs and the processors are as they were.
pub proof fn lemma_reads_back<V>(
    registry: Registry<V>,
    name: Seq<char>,
    kind: MetricKind,
    labels: Labels,
    now: i64,
    value: V,
)
    requires
        registry.metrics.dom().contains(key_of(name, labels)) ==> registry.metrics[key_of(
            name,
            labels,
        )].bound > 0,
    ensures
        ({
            let after = with_sample(registry, name, kind, labels, now, value);
            let key = key_of(name, labels);
            &&& after.metrics.dom().contains(key)
            &&& latest(after.metrics[key].samples) == Some(MetricSample { timestamp: now, value })
            &&& forall|other: Seq<char>|
                other != key ==> {
                    &&& #[trigger] after.metrics.dom().contains(other)
                        <==> registry.metrics.dom().contains(other)
                    &&& after.metrics[other] == registry.metrics[other]
                }
            &&& after.logs == registry.logs
            &&& after.processors == registry.processors
        }),
{
}

/// Cleaning up forgets no processor that is not done.
pub proof fn lemma_active_stay<V>(processors: Seq<Processor<V>>, now: i64, max_age_ms: i64)
    ensures
        active_count(staying(processors, now, max_age_ms)) == active_count(processors),
        forall|i: int|
            0 <= i < processors.len() && (#[trigger] processors[i]).stage != "done"@ ==> staying(
                processors,
                now,
                max_age_ms,
            ).contains(processors[i]),
    decreases processors.len(),
{
    if processors.len() > 0 {
        let init = processors.drop_last();
        let before = staying(init, now, max_age_ms);
        let after = staying(processors, now, max_age_ms);
        lemma_active_stay(init, now, max_age_ms);
        if stays(processors.last(), now, max_age_ms) {
            assert(after.drop_last() =~= before);
        }
        assert forall|i: int|
            0 <= i < processors.len() && (#[trigger] processors[i]).stage
                != "done"@ implies after.contains(processors[i]) by {
            if i < init.len() {
                assert(init[i] == processors[i]);
                let j = before.index_of(init[i]);
                assert(after[j] == processors[i]);
            } else {
                assert(after[after.len() - 1] == processors[i]);
            }
        }
    }
}

} // verus!
