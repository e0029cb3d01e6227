//! Readings of the system, recorded as gauges.
use std::ops::Add;
use std::time::SystemTime;

use vstd::prelude::*;

use crate::monitor::clock::{epoch_millis, now_millis};
use crate::monitor::labels::{label_texts, Labels};
use crate::monitor::metrics::{Metric, MetricKind};
use crate::monitor::processor::summable;
use crate::monitor::registry::{sampled, MetricsRegistry, Registry, DEFAULT_SAMPLE_CAPACITY};
use crate::monitor::text_map::TextMap;

verus! {

/// What this process takes.
#[derive(Debug)]
pub struct ProcessReading<V> {
    pub cpu: V,
    pub memory: u64,
    pub virtual_memory: u64,
}

/// The space of a disk, in bytes.
#[derive(Debug)]
pub struct DiskReading {
    pub total: u64,
    pub available: u64,
}

/// The traffic of a network interface so far, in bytes.
#[derive(Debug)]
pub struct NetworkReading {
    /// All that was sent up to now.
    pub transmitted: u64,
    /// All that was received up to now.
    pub received: u64,
}

/// A reading of the system.
#[derive(Debug)]
pub struct SystemReading<V> {
    pub cpu: V,
    /// Where this process was found.
    pub process: Option<ProcessReading<V>>,
    pub memory_total: u64,
    pub memory_used: u64,
    pub memory_available: u64,
    pub disks: Vec<DiskReading>,
    pub networks: Vec<NetworkReading>,
}

/// `value` is what `convert` gives for `number`.
pub open spec fn stands_for<V, F: Fn(u64) -> V>(convert: F, number: u64, value: V) -> bool {
    call_ensures(convert, (number,), value)
}

/// `total` is the sum of `numbers`, each as `convert` gives it, from the default on.
pub open spec fn sums_to<V: Copy + Default + Add<Output = V>, F: Fn(u64) -> V>(
    convert: F,
    numbers: Seq<u64>,
    total: V,
) -> bool
    decreases numbers.len(),
{
    if numbers.len() == 0 {
        call_ensures(V::default, (), total)
    } else {
        exists|before: V, last: V|
            {
                &&& sums_to(convert, numbers.drop_last(), before)
                &&& #[trigger] stands_for(convert, numbers.last(), last)
                &&& #[trigger] call_ensures(V::add, (before, last), total)
            }
    }
}

/// Adds numbers up.
fn add_up<V: Copy + Default + Add<Output = V>, F: Fn(u64) -> V>(
    convert: &F,
    numbers: &Vec<u64>,
) -> (total: V)
    requires
        summable::<V>(),
        forall|number: u64| call_requires(*convert, (number,)),
    ensures
        sums_to(*convert, numbers@, total),
{
    let mut total = V::default();
    let mut i: usize = 0;
    assert(numbers@.take(0) =~= Seq::<u64>::empty());
    while i < numbers.len()
        invariant
            summable::<V>(),
            forall|number: u64| call_requires(*convert, (number,)),
            i <= numbers@.len(),
            sums_to(*convert, numbers@.take(i as int), total),
        decreases numbers@.len() - i,
    {
        let last = convert(numbers[i]);
        let before = total;
        total = before + last;
        proof {
            let now = numbers@.take(i + 1);
            assert(now.drop_last() =~= numbers@.take(i as int));
            assert(stands_for(*convert, now.last(), last));
            assert(call_ensures(V::add, (before, last), total));
            assert(sums_to(*convert, now, total));
        }
        i = i + 1;
    }
    assert(numbers@.take(i as int) =~= numbers@);
    total
}

/// The names of the gauges of a reading, in the order in which they are recorded.
pub open spec fn gauge_names(with_process: bool) -> Seq<Seq<char>> {
    let process = if with_process {
        seq!["process_cpu_usage"@, "process_mem_rss_bytes"@, "process_mem_virtual_bytes"@]
    } else {
        Seq::empty()
    };
    seq!["sys_cpu_usage"@] + process + seq![
        "sys_mem_total_bytes"@,
        "sys_mem_used_bytes"@,
        "sys_mem_available_bytes"@,
        "disk_total_bytes"@,
        "disk_used_bytes"@,
        "disk_available_bytes"@,
        "net_bytes_sent"@,
        "net_bytes_recv"@,
        "process_uptime_secs"@,
    ]
}

/// The total space of the disks.
pub open spec fn disk_totals(disks: Seq<DiskReading>) -> Seq<u64> {
    disks.map_values(|disk: DiskReading| disk.total)
}

/// The used space of the disks: what is not free, modulo two to the power of 64 where a disk
/// reports more free space than space.
pub open spec fn disk_used(disks: Seq<DiskReading>) -> Seq<u64> {
    disks.map_values(|disk: DiskReading| disk.total.wrapping_sub(disk.available))
}

/// The free space of the disks.
pub open spec fn disk_free(disks: Seq<DiskReading>) -> Seq<u64> {
    disks.map_values(|disk: DiskReading| disk.available)
}

/// What the network interfaces sent so far.
pub open spec fn net_sent(networks: Seq<NetworkReading>) -> Seq<u64> {
    networks.map_values(|network: NetworkReading| network.transmitted)
}

/// What the network interfaces received so far.
pub open spec fn net_received(networks: Seq<NetworkReading>) -> Seq<u64> {
    networks.map_values(|network: NetworkReading| network.received)
}

/// The values of `gauges` are those of `reading`.
pub open spec fn reads<V: Copy + Default + Add<Output = V>, F: Fn(u64) -> V>(
    reading: SystemReading<V>,
    convert: F,
    uptime: V,
    gauges: Seq<(&'static str, V)>,
) -> bool {
    let k: int = if reading.process is Some {
        3
    } else {
        0
    };
    &&& gauges.map_values(|gauge: (&'static str, V)| gauge.0@) == gauge_names(
        reading.process is Some,
    )
    &&& gauges[0].1 == reading.cpu
    &&& reading.process matches Some(process) ==> {
        &&& gauges[1].1 == process.cpu
        &&& stands_for(convert, process.memory, gauges[2].1)
        &&& stands_for(convert, process.virtual_memory, gauges[3].1)
    }
    &&& stands_for(convert, reading.memory_total, gauges[k + 1].1)
    &&& stands_for(convert, reading.memory_used, gauges[k + 2].1)
    &&& stands_for(convert, reading.memory_available, gauges[k + 3].1)
    &&& sums_to(convert, disk_totals(reading.disks@), gauges[k + 4].1)
    &&& sums_to(convert, disk_used(reading.disks@), gauges[k + 5].1)
    &&& sums_to(convert, disk_free(reading.disks@), gauges[k + 6].1)
    &&& sums_to(convert, net_sent(reading.networks@), gauges[k + 7].1)
    &&& sums_to(convert, net_received(reading.networks@), gauges[k + 8].1)
    &&& gauges[k + 9].1 == uptime
}

/// `at_most` is kept by adding and by `convert`.
pub open spec fn keeps_order<V: Copy + Default + Add<Output = V>, F: Fn(u64) -> V>(
    convert: F,
    at_most: spec_fn(V, V) -> bool,
) -> bool {
    &&& forall|a: V, b: V|
        #![trigger call_ensures(V::default, (), a), call_ensures(V::default, (), b)]
        call_ensures(V::default, (), a) && call_ensures(V::default, (), b) ==> at_most(a, b)
    &&& forall|m: u64, n: u64, a: V, b: V|
        #![trigger stands_for(convert, m, a), stands_for(convert, n, b)]
        m <= n && stands_for(convert, m, a) && stands_for(convert, n, b) ==> at_most(a, b)
    &&& forall|a: V, b: V, c: V, d: V, x: V, y: V|
        #![trigger call_ensures(V::add, (a, c), x), call_ensures(V::add, (b, d), y)]
        at_most(a, b) && at_most(c, d) && call_ensures(V::add, (a, c), x) && call_ensures(
            V::add,
            (b, d),
            y,
        ) ==> at_most(x, y)
}

/// No number of `later` is below its number of `earlier`.
pub open spec fn none_falls(earlier: Seq<u64>, later: Seq<u64>) -> bool {
    &&& earlier.len() == later.len()
    &&& forall|i: int| 0 <= i < earlier.len() ==> #[trigger] earlier[i] <= #[trigger] later[i]
}

/// Where no number falls, the sum does not fall.
proof fn lemma_sums_grow<V: Copy + Default + Add<Output = V>, F: Fn(u64) -> V>(
    convert: F,
    at_most: spec_fn(V, V) -> bool,
    earlier: Seq<u64>,
    later: Seq<u64>,
    before: V,
    after: V,
)
    requires
        keeps_order(convert, at_most),
        none_falls(earlier, later),
        sums_to(convert, earlier, before),
        sums_to(convert, later, after),
    ensures
        at_most(before, after),
    decreases earlier.len(),
{
    if earlier.len() > 0 {
        let (a, c) = choose|a: V, c: V|
            {
                &&& sums_to(convert, earlier.drop_last(), a)
                &&& #[trigger] stands_for(convert, earlier.last(), c)
                &&& #[trigger] call_ensures(V::add, (a, c), before)
            };
        let (b, d) = choose|b: V, d: V|
            {
                &&& sums_to(convert, later.drop_last(), b)
                &&& #[trigger] stands_for(convert, later.last(), d)
                &&& #[trigger] call_ensures(V::add, (b, d), after)
            };
        assert(earlier[earlier.len() - 1] <= later[later.len() - 1]);
        lemma_sums_grow(convert, at_most, earlier.drop_last(), later.drop_last(), a, b);
        assert(at_most(c, d));
    }
}

/// The gauges of what was sent and received are the last but two and the last but one.
proof fn lemma_traffic_gauges<V: Copy + Default + Add<Output = V>, F: Fn(u64) -> V>(
    reading: SystemReading<V>,
    convert: F,
    uptime: V,
    gauges: Seq<(&'static str, V)>,
)
    requires
        reads(reading, convert, uptime, gauges),
    ensures
        gauges.len() >= 3,
        gauges[gauges.len() - 3].0@ == "net_bytes_sent"@,
        gauges[gauges.len() - 2].0@ == "net_bytes_recv"@,
        sums_to(convert, net_sent(reading.networks@), gauges[gauges.len() - 3].1),
        sums_to(convert, net_received(reading.networks@), gauges[gauges.len() - 2].1),
{
    let names = gauges.map_values(|gauge: (&'static str, V)| gauge.0@);
    assert(names == gauge_names(reading.process is Some));
    assert(names.len() == gauges.len());
    assert(names[gauges.len() - 3] == gauges[gauges.len() - 3].0@);
    assert(names[gauges.len() - 2] == gauges[gauges.len() - 2].0@);
}

/// The gauges of what was sent and received do not fall from one reading to a later one
/// of the same interfaces, as long as the interfaces count on.
pub proof fn lemma_traffic_grows<V: Copy + Default + Add<Output = V>, F: Fn(u64) -> V>(
    convert: F,
    at_most: spec_fn(V, V) -> bool,
    earlier: SystemReading<V>,
    later: SystemReading<V>,
    up_earlier: V,
    up_later: V,
    before: Seq<(&'static str, V)>,
    after: Seq<(&'static str, V)>,
)
    requires
        keeps_order(convert, at_most),
        reads(earlier, convert, up_earlier, before),
        reads(later, convert, up_later, after),
        none_falls(net_sent(earlier.networks@), net_sent(later.networks@)),
        none_falls(net_received(earlier.networks@), net_received(later.networks@)),
    ensures
        before[before.len() - 3].0@ == "net_bytes_sent"@ && after[after.len() - 3].0@
            == "net_bytes_sent"@,
        before[before.len() - 2].0@ == "net_bytes_recv"@ && after[after.len() - 2].0@
            == "net_bytes_recv"@,
        at_most(before[before.len() - 3].1, after[after.len() - 3].1),
        at_most(before[before.len() - 2].1, after[after.len() - 2].1),
{
    lemma_traffic_gauges(earlier, convert, up_earlier, before);
    lemma_traffic_gauges(later, convert, up_later, after);
    lemma_sums_grow(
        convert,
        at_most,
        net_sent(earlier.networks@),
        net_sent(later.networks@),
        before[before.len() - 3].1,
        after[after.len() - 3].1,
    );
    lemma_sums_grow(
        convert,
        at_most,
        net_received(earlier.networks@),
        net_received(later.networks@),
        before[before.len() - 2].1,
        after[after.len() - 2].1,
    );
}

/// The gauges of a reading; `convert` gives the value of a number.
pub fn system_gauges<V: Copy + Default + Add<Output = V>, F: Fn(u64) -> V>(
    reading: &SystemReading<V>,
    convert: F,
    uptime: V,
) -> (gauges: Vec<(&'static str, V)>)
    requires
        summable::<V>(),
        forall|number: u64| call_requires(convert, (number,)),
    ensures
        reads(*reading, convert, uptime, gauges@),
{
    let mut totals: Vec<u64> = Vec::new();
    let mut used: Vec<u64> = Vec::new();
    let mut free: Vec<u64> = Vec::new();
    let mut i: usize = 0;
    while i < reading.disks.len()
        invariant
            i <= reading.disks@.len(),
            totals@ =~= disk_totals(reading.disks@.take(i as int)),
            used@ =~= disk_used(reading.disks@.take(i as int)),
            free@ =~= disk_free(reading.disks@.take(i as int)),
        decreases reading.disks@.len() - i,
    {
        totals.push(reading.disks[i].total);
        used.push(reading.disks[i].total.wrapping_sub(reading.disks[i].available));
        free.push(reading.disks[i].available);
        i = i + 1;
    }
    assert(reading.disks@.take(i as int) =~= reading.disks@);
    let mut sent: Vec<u64> = Vec::new();
    let mut received: Vec<u64> = Vec::new();
    let mut j: usize = 0;
    while j < reading.networks.len()
        invariant
            j <= reading.networks@.len(),
            sent@ =~= net_sent(reading.networks@.take(j as int)),
            received@ =~= net_received(reading.networks@.take(j as int)),
        decreases reading.networks@.len() - j,
    {
        sent.push(reading.networks[j].transmitted);
        received.push(reading.networks[j].received);
        j = j + 1;
    }
    assert(reading.networks@.take(j as int) =~= reading.networks@);
    let mut gauges: Vec<(&'static str, V)> = Vec::new();
    gauges.push(("sys_cpu_usage", reading.cpu));
    if let Some(process) = &reading.process {
        gauges.push(("process_cpu_usage", process.cpu));
        gauges.push(("process_mem_rss_bytes", convert(process.memory)));
        gauges.push(("process_mem_virtual_bytes", convert(process.virtual_memory)));
    }
    gauges.push(("sys_mem_total_bytes", convert(reading.memory_total)));
    gauges.push(("sys_mem_used_bytes", convert(reading.memory_used)));
    gauges.push(("sys_mem_available_bytes", convert(reading.memory_available)));
    gauges.push(("disk_total_bytes", add_up(&convert, &totals)));
    gauges.push(("disk_used_bytes", add_up(&convert, &used)));
    gauges.push(("disk_available_bytes", add_up(&convert, &free)));
    gauges.push(("net_bytes_sent", add_up(&convert, &sent)));
    gauges.push(("net_bytes_recv", add_up(&convert, &received)));
    gauges.push(("process_uptime_secs", uptime));
    assert(gauges@.map_values(|gauge: (&'static str, V)| gauge.0@) =~= gauge_names(
        reading.process is Some,
    ));
    gauges
}

/// A gauge without labels and samples.
pub open spec fn plain_gauge<V>(name: Seq<char>) -> Metric<V> {
    Metric {
        name,
        kind: MetricKind::Gauge,
        labels: Map::empty(),
        samples: Seq::empty(),
        bound: DEFAULT_SAMPLE_CAPACITY as nat,
    }
}

/// The registry with one more sample for each of `gauges`, at `times`.
pub open spec fn with_gauges<V>(
    registry: Registry<V>,
    gauges: Seq<(&'static str, V)>,
    times: Seq<SystemTime>,
) -> Registry<V>
    decreases gauges.len(),
{
    if gauges.len() == 0 {
        registry
    } else {
        let before = with_gauges(registry, gauges.drop_last(), times.drop_last());
        let (name, value) = gauges.last();
        Registry {
            metrics: sampled(
                before.metrics,
                name@,
                plain_gauge(name@),
                epoch_millis(times.last()),
                value,
            ),
            ..before
        }
    }
}

/// Records gauges.
pub fn record_gauges<V: Copy + Default + Add<Output = V>>(
    registry: &mut MetricsRegistry<V>,
    gauges: &Vec<(&'static str, V)>,
)
    requires
        old(registry).wf(),
    ensures
        final(registry).wf(),
        exists|times: Seq<SystemTime>|
            times.len() == gauges@.len() && final(registry)@ == #[trigger] with_gauges(
                old(registry)@,
                gauges@,
                times,
            ),
{
    let ghost before = registry@;
    let ghost mut times: Seq<SystemTime> = Seq::empty();
    let mut i: usize = 0;
    assert(gauges@.take(0) =~= Seq::<(&'static str, V)>::empty());
    while i < gauges.len()
        invariant
            i <= gauges@.len(),
            registry.wf(),
            times.len() == i,
            registry@ == with_gauges(before, gauges@.take(i as int), times),
        decreases gauges@.len() - i,
    {
        let ghost held = registry@;
        let (name, value) = gauges[i];
        let labels: Labels = TextMap::new();
        let now: i64 = now_millis();
        registry.record_gauge_at(now, name, value, labels);
        proof {
            let done = gauges@.take(i + 1);
            let time = choose|time: SystemTime| now == epoch_millis(time);
            let later = times.push(time);
            assert(done.drop_last() =~= gauges@.take(i as int));
            assert(later.drop_last() =~= times);
            assert(label_texts(labels@) =~= Map::<Seq<char>, Seq<char>>::empty());
            assert(registry@ =~= with_gauges(before, done, later));
            times = later;
        }
        i = i + 1;
    }
    assert(gauges@.take(i as int) =~= gauges@);
}

/// `after` is `registry` with the gauges of `reading` recorded.
pub open spec fn with_reading<
    V: Copy + Default + Add<Output = V>,
    F: Fn(u64) -> V,
    G: Fn(i128) -> V,
>(
    registry: Registry<V>,
    reading: SystemReading<V>,
    convert: F,
    seconds: G,
    after: Registry<V>,
) -> bool {
    exists|time: SystemTime, uptime: V, gauges: Seq<(&'static str, V)>, times: Seq<SystemTime>|
        {
            &&& #[trigger] uptime_is(registry, seconds, time, uptime)
            &&& #[trigger] reads(reading, convert, uptime, gauges)
            &&& times.len() == gauges.len()
            &&& after == #[trigger] with_gauges(registry, gauges, times)
        }
}

/// `uptime` is what `seconds` gives for the milliseconds from the start of the node to
/// `time`.
pub open spec fn uptime_is<V, G: Fn(i128) -> V>(
    registry: Registry<V>,
    seconds: G,
    time: SystemTime,
    uptime: V,
) -> bool {
    call_ensures(seconds, ((epoch_millis(time) - registry.started_at) as i128,), uptime)
}

/// Records a reading of the system. `convert` gives the value of a number, and `seconds`
/// that of milliseconds.
pub fn record_system_reading<
    V: Copy + Default + Add<Output = V>,
    F: Fn(u64) -> V,
    G: Fn(i128) -> V,
>(registry: &mut MetricsRegistry<V>, reading: &SystemReading<V>, convert: F, seconds: G)
    requires
        old(registry).wf(),
        summable::<V>(),
        forall|number: u64| call_requires(convert, (number,)),
        forall|millis: i128| call_requires(seconds, (millis,)),
    ensures
        final(registry).wf(),
        with_reading(old(registry)@, *reading, convert, seconds, final(registry)@),
{
    let ghost before = registry@;
    let now: i64 = now_millis();
    let uptime = seconds(registry.uptime_at(now));
    let gauges = system_gauges(reading, convert, uptime);
    record_gauges(registry, &gauges);
    proof {
        let time = choose|time: SystemTime| now == epoch_millis(time);
        assert(uptime_is(before, seconds, time, uptime));
        let times = choose|times: Seq<SystemTime>|
            times.len() == gauges@.len() && registry@ == #[trigger] with_gauges(
                before,
                gauges@,
                times,
            );
        assert(with_reading(before, *reading, convert, seconds, registry@));
    }
}

} // verus!
