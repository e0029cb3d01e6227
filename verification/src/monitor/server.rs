//! The pages of the monitor.
use std::ops::Add;

use vstd::prelude::*;

use crate::monitor::history::time_sorted;
use crate::monitor::log_collector::LogEntry;
use crate::monitor::metrics::MetricSample;
use crate::monitor::registry::{named_samples, opt_text, ref_views, selected, MetricsRegistry};
use crate::monitor::store::newest;

verus! {

/// The number of log entries on a page that asks for no number.
pub const DEFAULT_LOG_LIMIT: usize = 100;

/// The history of a metric: from `since` on, or all of it.
pub fn history_page<V: Copy + Default + Add<Output = V>>(
    registry: &MetricsRegistry<V>,
    name: &str,
    since: Option<i64>,
) -> (samples: Vec<MetricSample<V>>)
    requires
        registry.wf(),
    ensures
        time_sorted(
            named_samples(
                registry@.metrics,
                registry.metric_keys(),
                name@,
                match since {
                    Some(since) => since,
                    None => 0,
                },
            ),
            samples@,
        ),
{
    match since {
        Some(since) => registry.metric_history(name, since),
        None => registry.metric_history(name, 0),
    }
}

/// The newest log entries, of one level where one is given.
pub fn logs_page<'a, V: Copy + Default + Add<Output = V>>(
    registry: &'a MetricsRegistry<V>,
    limit: Option<usize>,
    level: Option<&str>,
) -> (entries: Vec<&'a LogEntry>)
    requires
        registry.wf(),
    ensures
        ref_views(entries@) == newest(
            selected(registry@.logs, opt_text(level)),
            match limit {
                Some(limit) => limit as nat,
                None => DEFAULT_LOG_LIMIT as nat,
            },
        ),
        forall|i: int| 0 <= i < entries@.len() ==> (#[trigger] entries@[i]).labels.wf(),
{
    match limit {
        Some(limit) => registry.recent_logs(limit, level),
        None => registry.recent_logs(DEFAULT_LOG_LIMIT, level),
    }
}

} // verus!
