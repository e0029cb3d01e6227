use ballista_map_partition::monitor::clock::now_millis;
use ballista_map_partition::monitor::collector::{
    record_system_reading, system_gauges, DiskReading, NetworkReading, ProcessReading,
    SystemReading,
};
use ballista_map_partition::monitor::history::sort_by_time;
use ballista_map_partition::monitor::labels::{dup_labels, make_key, Labels};
use ballista_map_partition::monitor::metrics::{
    MetricEntry, MetricKind, MetricSample, MetricSnapshot,
};
use ballista_map_partition::monitor::processor::make_processor_id;
use ballista_map_partition::monitor::registry::MetricsRegistry;
use ballista_map_partition::monitor::server::{history_page, logs_page};
use ballista_map_partition::monitor::text_map::TextMap;

fn labels(pairs: &[(&str, &str)]) -> Labels {
    let mut labels: Labels = TextMap::new();
    for (name, value) in pairs {
        labels.insert(name.to_string(), value.to_string());
    }
    labels
}

fn registry() -> MetricsRegistry<f64> {
    MetricsRegistry::new_at(1_000)
}

fn values(samples: &[MetricSample<f64>]) -> Vec<(i64, f64)> {
    samples.iter().map(|sample| (sample.timestamp, sample.value)).collect()
}

fn value(registry: &MetricsRegistry<f64>, name: &str) -> Option<f64> {
    let snapshots = registry.all_metrics_snapshot();
    snapshots.iter().find(|snapshot| snapshot.name == name).and_then(|snapshot| snapshot.value)
}

#[test]
fn a_text_map_keeps_its_keys_in_order() {
    let mut map: TextMap<u32> = TextMap::new();
    assert!(map.is_empty());
    for (key, value) in [("b", 1), ("é", 2), ("a", 3), ("ab", 4), ("", 5), ("b", 6)] {
        map.insert(key.to_string(), value);
    }
    let keys: Vec<&str> = (0..map.len()).map(|i| map.entry(i).0.as_str()).collect();
    assert_eq!(keys, vec!["", "a", "ab", "b", "é"]);
    assert_eq!(map.get("b"), Some(&6));
    assert_eq!(map.get("c"), None);
    assert!(map.contains_key("é"));
    assert_eq!(map.remove("ab"), Some(4));
    assert_eq!(map.remove("ab"), None);
    assert_eq!(map.len(), 4);
}

#[test]
fn the_key_of_a_metric_lists_its_labels() {
    assert_eq!(make_key("cpu", &labels(&[])), "cpu");
    assert_eq!(make_key("cpu", &labels(&[("host", "a")])), "cpu{host=a}");
    let one = labels(&[("z", "1"), ("host", "a"), ("core", "0")]);
    let other = labels(&[("core", "0"), ("z", "1"), ("host", "a")]);
    assert_eq!(make_key("cpu", &one), "cpu{core=0,host=a,z=1}");
    assert_eq!(make_key("cpu", &one), make_key("cpu", &other));
    assert_eq!(make_key("cpu", &dup_labels(&one)), make_key("cpu", &one));
}

#[test]
fn a_metric_keeps_its_newest_samples() {
    let mut entry: MetricEntry<f64> =
        MetricEntry::new("rows", MetricKind::Histogram, labels(&[("p", "1")]), 3);
    assert_eq!(entry.latest_value(), None);
    assert_eq!(entry.latest_timestamp(), None);
    for i in 0..5 {
        entry.record(i * 10, i as f64);
    }
    assert_eq!(entry.latest_value(), Some(4.0));
    assert_eq!(entry.latest_timestamp(), Some(40));
    assert_eq!(values(&entry.history_since(0)), vec![(20, 2.0), (30, 3.0), (40, 4.0)]);
    assert_eq!(values(&entry.history_since(30)), vec![(30, 3.0), (40, 4.0)]);
    assert!(entry.history_since(41).is_empty());
    let snapshot = MetricSnapshot::of(&entry);
    assert_eq!(snapshot.name, "rows");
    assert_eq!(snapshot.kind, MetricKind::Histogram);
    assert_eq!(snapshot.labels.get("p"), Some(&"1".to_string()));
    assert_eq!((snapshot.timestamp, snapshot.value), (Some(40), Some(4.0)));
}

#[test]
fn samples_are_sorted_by_time() {
    let sample = |timestamp, value| MetricSample { timestamp, value };
    let mixed = vec![sample(5, 1.0), sample(3, 2.0), sample(5, 3.0), sample(-1, 4.0), sample(3, 5.0)];
    let sorted = sort_by_time(&mixed);
    assert_eq!(values(&sorted), vec![(-1, 4.0), (3, 2.0), (3, 5.0), (5, 1.0), (5, 3.0)]);
}

#[test]
fn a_gauge_has_its_last_value() {
    let mut registry = registry();
    registry.record_gauge_at(10, "cpu", 1.5, labels(&[]));
    registry.record_gauge_at(20, "cpu", 2.5, labels(&[]));
    registry.record_gauge_at(20, "cpu", 9.0, labels(&[("core", "1")]));
    let snapshots = registry.all_metrics_snapshot();
    assert_eq!(snapshots.len(), 2);
    assert_eq!(snapshots[0].value, Some(2.5));
    assert_eq!(snapshots[0].timestamp, Some(20));
    assert_eq!(snapshots[0].kind, MetricKind::Gauge);
    assert_eq!(snapshots[1].value, Some(9.0));
}

#[test]
fn a_counter_adds_up() {
    let mut registry = registry();
    registry.increment_counter_at(10, "rows", 2.0, labels(&[]));
    registry.increment_counter_at(11, "rows", 3.5, labels(&[]));
    assert_eq!(value(&registry, "rows"), Some(5.5));
    let snapshots = registry.all_metrics_snapshot();
    assert_eq!(snapshots[0].kind, MetricKind::Counter);
    let history = registry.metric_history("rows", 0);
    assert_eq!(values(&history), vec![(10, 2.0), (11, 5.5)]);
}

#[test]
fn a_history_joins_the_metrics_of_a_name() {
    let mut registry = registry();
    registry.record_histogram_at(30, "took", 3.0, labels(&[("p", "1")]));
    registry.record_histogram_at(10, "took", 1.0, labels(&[("p", "0")]));
    registry.record_histogram_at(40, "took", 4.0, labels(&[("p", "0")]));
    registry.record_histogram_at(35, "other", 7.0, labels(&[]));
    let history = registry.metric_history("took", 10);
    assert_eq!(values(&history), vec![(10, 1.0), (30, 3.0), (40, 4.0)]);
    let history = registry.metric_history("took", 11);
    assert_eq!(values(&history), vec![(30, 3.0), (40, 4.0)]);
    assert!(registry.metric_history("none", 0).is_empty());
    assert_eq!(values(&history_page(&registry, "took", None)).len(), 3);
    assert_eq!(values(&history_page(&registry, "took", Some(40))), vec![(40, 4.0)]);
}

#[test]
fn a_metric_holds_five_minutes_of_samples() {
    let mut registry = registry();
    for i in 0..310 {
        registry.record_gauge_at(i, "cpu", i as f64, labels(&[]));
    }
    let history = registry.metric_history("cpu", 0);
    assert_eq!(history.len(), 300);
    assert_eq!(history[0].timestamp, 10);
    assert_eq!(history[299].timestamp, 309);
}

#[test]
fn logs_are_filtered_and_limited() {
    let mut registry = registry();
    for i in 0..5 {
        let level = if i % 2 == 0 { "info" } else { "error" };
        let message = format!("m{i}");
        registry.log_at(i, level, "feed", &message, labels(&[("n", "1")]));
    }
    let texts = |limit, level| -> Vec<String> {
        registry.recent_logs(limit, level).iter().map(|entry| entry.message.clone()).collect()
    };
    assert_eq!(texts(100, None), vec!["m0", "m1", "m2", "m3", "m4"]);
    assert_eq!(texts(2, None), vec!["m3", "m4"]);
    assert_eq!(texts(0, None), Vec::<String>::new());
    assert_eq!(texts(2, Some("info")), vec!["m2", "m4"]);
    assert_eq!(texts(usize::MAX, Some("error")), vec!["m1", "m3"]);
    assert_eq!(texts(5, Some("warn")), Vec::<String>::new());
    let entry = registry.recent_logs(1, None)[0];
    assert_eq!((entry.timestamp, entry.level.as_str(), entry.stage.as_str()), (4, "info", "feed"));
    assert_eq!(entry.labels.get("n"), Some(&"1".to_string()));
}

#[test]
fn only_the_newest_logs_are_kept() {
    let mut registry = registry();
    for i in 0..1005 {
        registry.log_at(i, "info", "feed", "m", labels(&[]));
    }
    assert_eq!(registry.recent_logs(5000, None).len(), 1000);
    assert_eq!(registry.recent_logs(5000, None)[0].timestamp, 5);
    assert_eq!(logs_page(&registry, None, None).len(), 100);
    assert_eq!(logs_page(&registry, Some(7), Some("info")).len(), 7);
}

#[test]
fn processors_have_identifiers_of_their_own() {
    let mut registry = registry();
    let a = registry.add_processor_at(5, "job", "/p.so", "proc", 2, None, 0.5);
    let b = registry.add_processor_at(6, "job", "/p.so", "proc", 2, Some("east"), 0.25);
    assert_eq!(a, "1-2");
    assert_eq!(b, "2-2");
    assert_eq!(make_processor_id(12, 34), "12-34");
    let processors = registry.get_processors();
    assert_eq!(processors.len(), 2);
    assert_eq!(processors[0].stage, "init");
    assert_eq!(processors[0].key, None);
    assert_eq!(processors[1].key.as_deref(), Some("east"));
    assert_eq!(processors[1].created_at, 6);
    assert_eq!(processors[1].last_activity_at, 6);
    let stats = processors[1].stage_stats.get("init").unwrap();
    assert_eq!((stats.duration_ms, stats.calls), (0.25, 1));
}

#[test]
fn calls_of_a_stage_are_counted() {
    let mut registry = registry();
    let id = registry.add_processor_at(5, "job", "/p.so", "proc", 0, None, 0.5);
    registry.update_processor_at(7, &id, "feed", 10, 0, 100, 0, 1.5);
    registry.update_processor_at(9, &id, "feed", 5, 1, 50, 8, 2.0);
    registry.update_processor_at(11, "9-9", "feed", 5, 1, 50, 8, 2.0);
    let p = &registry.get_processors()[0];
    assert_eq!((p.rows_in, p.rows_out, p.bytes_in, p.bytes_out), (15, 1, 150, 8));
    assert_eq!(p.stage, "feed");
    assert_eq!(p.last_activity_at, 9);
    assert_eq!(p.created_at, 5);
    let stats = p.stage_stats.get("feed").unwrap();
    assert_eq!((stats.duration_ms, stats.calls), (3.5, 2));
    assert_eq!(p.finished_at, None);
}

#[test]
fn a_finished_processor_is_forgotten_in_time() {
    let mut registry = registry();
    let a = registry.add_processor_at(5, "job", "/p.so", "proc", 0, None, 0.5);
    let b = registry.add_processor_at(5, "job", "/p.so", "proc", 1, None, 0.5);
    registry.finish_processor_at(100, &a, 4.0);
    let p = &registry.get_processors()[0];
    assert_eq!(p.stage, "done");
    assert_eq!(p.finished_at, Some(100));
    assert_eq!(p.stage_stats.get("finish").unwrap().calls, 1);
    assert_eq!(p.stage_stats.get("finish").unwrap().duration_ms, 4.0);
    let overview = registry.overview_at(2_500);
    assert_eq!((overview.processor_count, overview.processor_total), (1, 2));
    registry.cleanup_processors_at(149, 50);
    assert_eq!(registry.get_processors().len(), 2);
    registry.cleanup_processors_at(150, 50);
    assert_eq!(registry.get_processors().len(), 1);
    assert_eq!(registry.get_processors()[0].id, b);
    registry.cleanup_processors_at(i64::MAX, i64::MIN);
    assert_eq!(registry.get_processors().len(), 1);
    let c = registry.add_processor_at(200, "job", "/p.so", "proc", 0, None, 0.5);
    assert_eq!(c, "3-0");
}

#[test]
fn old_metrics_are_forgotten() {
    let mut registry = registry();
    registry.record_gauge_at(10, "a", 1.0, labels(&[]));
    registry.record_gauge_at(20, "b", 1.0, labels(&[]));
    registry.record_gauge_at(30, "c", 1.0, labels(&[]));
    registry.record_gauge_at(40, "a", 1.0, labels(&[]));
    registry.cleanup_metrics_at(50, 25);
    let names: Vec<String> =
        registry.all_metrics_snapshot().into_iter().map(|snapshot| snapshot.name).collect();
    assert_eq!(names, vec!["a", "c"]);
    registry.cleanup_metrics_at(i64::MIN, i64::MIN);
    assert_eq!(registry.all_metrics_snapshot().len(), 2);
    registry.cleanup_metrics_at(50, i64::MIN);
    assert!(registry.all_metrics_snapshot().is_empty());
}

#[test]
fn an_overview_shows_the_node() {
    let mut registry = registry();
    let overview = registry.overview_at(1_500);
    assert_eq!((overview.role.as_str(), overview.node_name.as_str()), ("unknown", "unknown"));
    assert_eq!(overview.uptime_ms, 500);
    registry.init_at(2_000, "executor", "node-1", 8);
    registry.record_gauge_at(2_100, "cpu", 1.0, labels(&[]));
    let overview = registry.overview_at(4_500);
    assert_eq!((overview.role.as_str(), overview.node_name.as_str()), ("executor", "node-1"));
    assert_eq!(overview.started_at, 2_000);
    assert_eq!(overview.uptime_ms, 2_500);
    assert_eq!(overview.concurrent_tasks, 8);
    assert_eq!(overview.metrics.len(), 1);
    assert_eq!(registry.uptime_at(2_001), 1);
}

#[test]
fn the_clock_stamps_what_is_recorded() {
    let before = now_millis();
    assert!(before > 1_600_000_000_000);
    let mut registry: MetricsRegistry<f64> = MetricsRegistry::new();
    registry.init("scheduler", "s", 0);
    registry.record_gauge("g", 1.0, labels(&[]));
    registry.record_histogram("h", 2.0, labels(&[]));
    registry.increment_counter("c", 3.0, labels(&[]));
    registry.increment_counter("c", 3.0, labels(&[]));
    registry.log("info", "init", "started", labels(&[]));
    let id = registry.add_processor("job", "/p.so", "proc", 0, None, 0.0);
    registry.update_processor(&id, "execute", 1, 2, 3, 4, 5.0);
    registry.finish_processor(&id, 6.0);
    let after = now_millis();
    let within = |time: i64| before <= time && time <= after;
    for snapshot in registry.all_metrics_snapshot() {
        assert!(within(snapshot.timestamp.unwrap()));
    }
    assert_eq!(value(&registry, "c"), Some(6.0));
    assert!(within(registry.recent_logs(1, None)[0].timestamp));
    let p = &registry.get_processors()[0];
    assert!(within(p.created_at) && within(p.last_activity_at) && within(p.finished_at.unwrap()));
    let overview = registry.overview();
    assert!(within(overview.started_at));
    registry.cleanup_metrics(-1);
    registry.cleanup_processors(-1);
    assert!(registry.all_metrics_snapshot().is_empty());
    assert!(registry.get_processors().is_empty());
}

fn reading(process: Option<ProcessReading<f64>>) -> SystemReading<f64> {
    SystemReading {
        cpu: 12.5,
        process,
        memory_total: 100,
        memory_used: 60,
        memory_available: 40,
        disks: vec![
            DiskReading { total: 1000, available: 400 },
            DiskReading { total: 500, available: 500 },
        ],
        networks: vec![
            NetworkReading { transmitted: 7, received: 9 },
            NetworkReading { transmitted: 1, received: 2 },
        ],
    }
}

#[test]
fn a_reading_has_its_gauges() {
    let process = ProcessReading { cpu: 3.5, memory: 11, virtual_memory: 22 };
    let gauges = system_gauges(&reading(Some(process)), |n: u64| n as f64, 1.25);
    assert_eq!(
        gauges,
        vec![
            ("sys_cpu_usage", 12.5),
            ("process_cpu_usage", 3.5),
            ("process_mem_rss_bytes", 11.0),
            ("process_mem_virtual_bytes", 22.0),
            ("sys_mem_total_bytes", 100.0),
            ("sys_mem_used_bytes", 60.0),
            ("sys_mem_available_bytes", 40.0),
            ("disk_total_bytes", 1500.0),
            ("disk_used_bytes", 600.0),
            ("disk_available_bytes", 900.0),
            ("net_bytes_sent", 8.0),
            ("net_bytes_recv", 11.0),
            ("process_uptime_secs", 1.25),
        ]
    );
    let gauges = system_gauges(&reading(None), |n: u64| n as f64, 1.25);
    assert_eq!(gauges.len(), 10);
    assert_eq!(gauges[1].0, "sys_mem_total_bytes");
}

#[test]
fn the_used_space_wraps_around() {
    let reading = SystemReading::<u64> {
        cpu: 0,
        process: None,
        memory_total: 0,
        memory_used: 0,
        memory_available: 0,
        disks: vec![DiskReading { total: 1, available: 3 }],
        networks: vec![],
    };
    let gauges = system_gauges(&reading, |n: u64| n, 0);
    assert_eq!(gauges[5], ("disk_used_bytes", u64::MAX - 1));
}

#[test]
fn a_reading_is_recorded() {
    let mut registry: MetricsRegistry<f64> = MetricsRegistry::new();
    let seconds = |millis: i128| millis as f64 / 1000.0;
    record_system_reading(&mut registry, &reading(None), |n: u64| n as f64, seconds);
    assert_eq!(value(&registry, "disk_used_bytes"), Some(600.0));
    assert_eq!(value(&registry, "net_bytes_recv"), Some(11.0));
    assert!(value(&registry, "process_uptime_secs").unwrap() >= 0.0);
    assert_eq!(value(&registry, "process_cpu_usage"), None);
    assert_eq!(registry.all_metrics_snapshot().len(), 10);
}

#[test]
fn processors_ever_made_are_counted() {
    let mut registry: MetricsRegistry<f64> = MetricsRegistry::new();
    let id = registry.add_processor("j", "a.so", "f", 0, None, 1.0);
    assert_eq!(id, "1-0");
    registry.finish_processor(&id, 1.0);
    registry.cleanup_processors(-1);
    assert!(registry.get_processors().is_empty());
    let overview = registry.overview();
    assert_eq!(overview.processor_total, 1);
    assert_eq!(overview.processor_count, 0);
    assert_eq!(registry.add_processor("j", "a.so", "f", 0, None, 1.0), "2-0");
}

#[test]
fn different_metrics_have_different_keys() {
    let a = make_key("cpu", &labels(&[("host", "a"), ("core", "1")]));
    assert_ne!(a, make_key("cpu", &labels(&[("host", "a"), ("core", "2")])));
    assert_ne!(a, make_key("mem", &labels(&[("host", "a"), ("core", "1")])));
    assert_ne!(a, make_key("cpu", &labels(&[("host", "a")])));
    // A separator in a value makes two keys one.
    let joined = make_key("cpu", &labels(&[("core", "1,host=a")]));
    assert_eq!(a, joined);
}

#[test]
fn a_metric_keeps_the_default_number_of_samples() {
    let mut registry = registry();
    for i in 0..305 {
        registry.record_gauge_at(i, "g", i as f64, labels(&[]));
    }
    let samples = registry.metric_history("g", 0);
    assert_eq!(samples.len(), 300);
    assert_eq!(samples[0].timestamp, 5);
}

#[test]
fn traffic_does_not_fall() {
    let sums = |reading: &SystemReading<f64>| {
        let gauges = system_gauges(reading, |n: u64| n as f64, 0.0);
        (gauges[gauges.len() - 3], gauges[gauges.len() - 2])
    };
    let earlier = reading(None);
    let mut later = reading(None);
    later.networks[1].transmitted = 4;
    assert_eq!(sums(&earlier), (("net_bytes_sent", 8.0), ("net_bytes_recv", 11.0)));
    assert_eq!(sums(&later), (("net_bytes_sent", 11.0), ("net_bytes_recv", 11.0)));
}
