//! What the gauges of a reading say of the system.
use std::ops::Add;
use std::time::SystemTime;

use vstd::prelude::*;

use crate::monitor::clock::epoch_millis;
use crate::monitor::collector::{
    disk_free, disk_totals, disk_used, gauge_names, net_received, net_sent, reads,
    record_system_reading, stands_for, sums_to, system_gauges, uptime_is, with_gauges, with_reading,
    DiskReading, NetworkReading, SystemReading,
};
use crate::monitor::laws::lemma_recorded;
use crate::monitor::metrics::{MetricKind, MetricSample};
use crate::monitor::registry::{MetricsRegistry, Registry};

verus! {

/// The sum of numbers.
pub open spec fn sum_of(numbers: Seq<int>) -> int
    decreases numbers.len(),
{
    if numbers.len() == 0 {
        0
    } else {
        sum_of(numbers.drop_last()) + numbers.last()
    }
}

/// `value` says which number a value stands for: none for the default one, the sum for a sum,
/// and the number that was converted for what `convert` gives.
pub open spec fn stands_for_numbers<V: Copy + Default + Add<Output = V>, F: Fn(u64) -> V>(
    convert: F,
    value: spec_fn(V) -> int,
) -> bool {
    &&& forall|zero: V| #[trigger] call_ensures(V::default, (), zero) ==> value(zero) == 0
    &&& forall|a: V, b: V, c: V| #[trigger]
        call_ensures(V::add, (a, b), c) ==> value(c) == value(a) + value(b)
    &&& forall|n: u64, v: V| #[trigger] call_ensures(convert, (n,), v) ==> value(v) == n
}

/// What is added up is the sum.
proof fn lemma_sums<V: Copy + Default + Add<Output = V>, F: Fn(u64) -> V>(
    convert: F,
    value: spec_fn(V) -> int,
    numbers: Seq<u64>,
    total: V,
)
    requires
        stands_for_numbers(convert, value),
        sums_to(convert, numbers, total),
    ensures
        value(total) == sum_of(numbers.map_values(|n: u64| n as int)),
    decreases numbers.len(),
{
    let ints = numbers.map_values(|n: u64| n as int);
    if numbers.len() > 0 {
        let (before, last) = choose|before: V, last: V|
            {
                &&& sums_to(convert, numbers.drop_last(), before)
                &&& #[trigger] stands_for(convert, numbers.last(), last)
                &&& #[trigger] call_ensures(V::add, (before, last), total)
            };
        lemma_sums(convert, value, numbers.drop_last(), before);
        assert(ints.drop_last() =~= numbers.drop_last().map_values(|n: u64| n as int));
    }
}

/// A gauge of the given name has the given value.
pub open spec fn has_gauge<V>(
    gauges: Seq<(&'static str, V)>,
    name: Seq<char>,
    value: V,
) -> bool {
    exists|i: int|
        0 <= i < gauges.len() && (#[trigger] gauges[i]).0@ == name && gauges[i].1 == value
}

/// The gauge at a place has its name.
proof fn lemma_gauge_at<V: Copy + Default + Add<Output = V>, F: Fn(u64) -> V>(
    reading: SystemReading<V>,
    convert: F,
    uptime: V,
    gauges: Seq<(&'static str, V)>,
    i: int,
)
    requires
        reads(reading, convert, uptime, gauges),
        0 <= i < gauges.len(),
    ensures
        gauges.len() == gauge_names(reading.process is Some).len(),
        gauges[i].0@ == gauge_names(reading.process is Some)[i],
        has_gauge(gauges, gauge_names(reading.process is Some)[i], gauges[i].1),
{
    let names = gauges.map_values(|gauge: (&'static str, V)| gauge.0@);
    assert(names.len() == gauges.len());
    assert(names[i] == gauges[i].0@);
}

/// The gauges of a reading: the use of the processor and of the memory as they were read, those
/// of this process where it was found, and how long the node has been up. There are no others
/// but those of the disks and of the network.
pub proof fn lemma_plain_gauges<V: Copy + Default + Add<Output = V>, F: Fn(u64) -> V>(
    reading: SystemReading<V>,
    convert: F,
    uptime: V,
    gauges: Vec<(&'static str, V)>,
)
    requires
        call_ensures(system_gauges::<V, F>, (&reading, convert, uptime), gauges),
    ensures
        gauges@.len() == if reading.process is Some {
            13nat
        } else {
            10nat
        },
        has_gauge(gauges@, "sys_cpu_usage"@, reading.cpu),
        has_gauge(gauges@, "process_uptime_secs"@, uptime),
        exists|v: V| #[trigger]
            has_gauge(gauges@, "sys_mem_total_bytes"@, v) && call_ensures(
                convert,
                (reading.memory_total,),
                v,
            ),
        exists|v: V| #[trigger]
            has_gauge(gauges@, "sys_mem_used_bytes"@, v) && call_ensures(
                convert,
                (reading.memory_used,),
                v,
            ),
        exists|v: V| #[trigger]
            has_gauge(gauges@, "sys_mem_available_bytes"@, v) && call_ensures(
                convert,
                (reading.memory_available,),
                v,
            ),
        reading.process matches Some(process) ==> {
            &&& has_gauge(gauges@, "process_cpu_usage"@, process.cpu)
            &&& exists|v: V| #[trigger]
                has_gauge(gauges@, "process_mem_rss_bytes"@, v) && call_ensures(
                    convert,
                    (process.memory,),
                    v,
                )
            &&& exists|v: V| #[trigger]
                has_gauge(gauges@, "process_mem_virtual_bytes"@, v) && call_ensures(
                    convert,
                    (process.virtual_memory,),
                    v,
                )
        },
{
    let names = gauge_names(reading.process is Some);
    assert(gauges@.map_values(|gauge: (&'static str, V)| gauge.0@).len() == gauges@.len());
    let k: int = if reading.process is Some {
        3
    } else {
        0
    };
    lemma_gauge_at(reading, convert, uptime, gauges@, 0);
    lemma_gauge_at(reading, convert, uptime, gauges@, k + 1);
    lemma_gauge_at(reading, convert, uptime, gauges@, k + 2);
    lemma_gauge_at(reading, convert, uptime, gauges@, k + 3);
    lemma_gauge_at(reading, convert, uptime, gauges@, k + 9);
    if reading.process is Some {
        lemma_gauge_at(reading, convert, uptime, gauges@, 1);
        lemma_gauge_at(reading, convert, uptime, gauges@, 2);
        lemma_gauge_at(reading, convert, uptime, gauges@, 3);
    }
}

/// The gauges of the disks and of the network are sums over all of them: of the space, of the
/// free space, of what was sent and of what was received; and where no disk has more free space
/// than space, the used space is the space without the free space.
pub proof fn lemma_summed_gauges<V: Copy + Default + Add<Output = V>, F: Fn(u64) -> V>(
    reading: SystemReading<V>,
    convert: F,
    uptime: V,
    gauges: Vec<(&'static str, V)>,
    value: spec_fn(V) -> int,
)
    requires
        call_ensures(system_gauges::<V, F>, (&reading, convert, uptime), gauges),
        stands_for_numbers(convert, value),
    ensures
        exists|v: V| #[trigger]
            has_gauge(gauges@, "disk_total_bytes"@, v) && value(v) == sum_of(
                reading.disks@.map_values(|disk: DiskReading| disk.total as int),
            ),
        exists|v: V| #[trigger]
            has_gauge(gauges@, "disk_available_bytes"@, v) && value(v) == sum_of(
                reading.disks@.map_values(|disk: DiskReading| disk.available as int),
            ),
        (forall|i: int|
            0 <= i < reading.disks@.len() ==> (#[trigger] reading.disks@[i]).available
                <= reading.disks@[i].total) ==> exists|v: V| #[trigger]
            has_gauge(gauges@, "disk_used_bytes"@, v) && value(v) == sum_of(
                reading.disks@.map_values(|disk: DiskReading| disk.total - disk.available),
            ),
        exists|v: V| #[trigger]
            has_gauge(gauges@, "net_bytes_sent"@, v) && value(v) == sum_of(
                reading.networks@.map_values(
                    |network: NetworkReading| network.transmitted as int,
                ),
            ),
        exists|v: V| #[trigger]
            has_gauge(gauges@, "net_bytes_recv"@, v) && value(v) == sum_of(
                reading.networks@.map_values(|network: NetworkReading| network.received as int),
            ),
{
    let disks = reading.disks@;
    let networks = reading.networks@;
    assert(gauges@.map_values(|gauge: (&'static str, V)| gauge.0@).len() == gauges@.len());
    let k: int = if reading.process is Some {
        3
    } else {
        0
    };
    lemma_gauge_at(reading, convert, uptime, gauges@, k + 4);
    lemma_gauge_at(reading, convert, uptime, gauges@, k + 5);
    lemma_gauge_at(reading, convert, uptime, gauges@, k + 6);
    lemma_gauge_at(reading, convert, uptime, gauges@, k + 7);
    lemma_gauge_at(reading, convert, uptime, gauges@, k + 8);
    lemma_sums(convert, value, disk_totals(disks), gauges@[k + 4].1);
    lemma_sums(convert, value, disk_used(disks), gauges@[k + 5].1);
    lemma_sums(convert, value, disk_free(disks), gauges@[k + 6].1);
    lemma_sums(convert, value, net_sent(networks), gauges@[k + 7].1);
    lemma_sums(convert, value, net_received(networks), gauges@[k + 8].1);
    assert(disk_totals(disks).map_values(|n: u64| n as int) =~= disks.map_values(
        |disk: DiskReading| disk.total as int,
    ));
    assert(disk_free(disks).map_values(|n: u64| n as int) =~= disks.map_values(
        |disk: DiskReading| disk.available as int,
    ));
    assert(net_sent(networks).map_values(|n: u64| n as int) =~= networks.map_values(
        |network: NetworkReading| network.transmitted as int,
    ));
    assert(net_received(networks).map_values(|n: u64| n as int) =~= networks.map_values(
        |network: NetworkReading| network.received as int,
    ));
    if forall|i: int|
        0 <= i < disks.len() ==> (#[trigger] disks[i]).available <= disks[i].total {
        assert(disk_used(disks).map_values(|n: u64| n as int) =~= disks.map_values(
            |disk: DiskReading| disk.total - disk.available,
        ));
    }
}

/// Every metric has room for samples, and no more of them than that.
pub open spec fn has_room_for_samples<V>(registry: Registry<V>) -> bool {
    forall|key: Seq<char>| #[trigger]
        registry.metrics.dom().contains(key) ==> registry.metrics[key].bound > 0
            && registry.metrics[key].samples.len() <= registry.metrics[key].bound
}

/// Recording gauges of different names makes each the newest sample of the metric of its name,
/// a gauge without labels where it is new, at its time. Nothing else changes.
pub proof fn lemma_gauges_recorded<V>(
    registry: Registry<V>,
    gauges: Seq<(&'static str, V)>,
    times: Seq<SystemTime>,
)
    requires
        times.len() == gauges.len(),
        has_room_for_samples(registry),
        forall|i: int, j: int|
            #![trigger gauges[i], gauges[j]]
            0 <= i < j < gauges.len() ==> gauges[i].0@ != gauges[j].0@,
    ensures
        ({
            let after = with_gauges(registry, gauges, times);
            &&& after == (Registry { metrics: after.metrics, ..registry })
            &&& has_room_for_samples(after)
            &&& forall|i: int|
                0 <= i < gauges.len() ==> {
                    let name = (#[trigger] gauges[i]).0@;
                    &&& after.metrics.dom().contains(name)
                    &&& after.metrics[name].samples.len() > 0
                    &&& after.metrics[name].samples.last() == (MetricSample {
                        timestamp: epoch_millis(times[i]),
                        value: gauges[i].1,
                    })
                    &&& !registry.metrics.dom().contains(name) ==> after.metrics[name].name == name
                        && after.metrics[name].kind == MetricKind::Gauge
                        && after.metrics[name].samples.len() == 1
                }
            &&& forall|key: Seq<char>|
                (forall|i: int| 0 <= i < gauges.len() ==> (#[trigger] gauges[i]).0@ != key) ==> {
                    &&& #[trigger] after.metrics.dom().contains(key)
                        <==> registry.metrics.dom().contains(key)
                    &&& after.metrics[key] == registry.metrics[key]
                }
        }),
    decreases gauges.len(),
{
    if gauges.len() > 0 {
        let init = gauges.drop_last();
        let (last, value) = gauges.last();
        let before = with_gauges(registry, init, times.drop_last());
        let after = with_gauges(registry, gauges, times);
        assert forall|i: int, j: int|
            #![trigger init[i], init[j]]
            0 <= i < j < init.len() implies init[i].0@ != init[j].0@ by {
            assert(gauges[i].0@ != gauges[j].0@);
        }
        lemma_gauges_recorded(registry, init, times.drop_last());
        assert forall|i: int| 0 <= i < init.len() implies (#[trigger] init[i]).0@ != last@ by {
            assert(gauges[i].0@ != gauges[gauges.len() - 1].0@);
        }
        if before.metrics.dom().contains(last@) {
            lemma_recorded(before.metrics[last@], epoch_millis(times.last()), value);
        }
        assert forall|i: int| 0 <= i < gauges.len() implies {
            let name = (#[trigger] gauges[i]).0@;
            &&& after.metrics.dom().contains(name)
            &&& after.metrics[name].samples.len() > 0
            &&& after.metrics[name].samples.last() == (MetricSample {
                timestamp: epoch_millis(times[i]),
                value: gauges[i].1,
            })
            &&& !registry.metrics.dom().contains(name) ==> after.metrics[name].name == name
                && after.metrics[name].kind == MetricKind::Gauge
                && after.metrics[name].samples.len() == 1
        } by {
            if i < init.len() {
                assert(init[i] == gauges[i]);
            }
        }
        assert forall|key: Seq<char>|
            (forall|i: int| 0 <= i < gauges.len() ==> (#[trigger] gauges[i]).0@ != key) implies {
            &&& #[trigger] after.metrics.dom().contains(key) <==> registry.metrics.dom().contains(
                key,
            )
            &&& after.metrics[key] == registry.metrics[key]
        } by {
            assert forall|i: int| 0 <= i < init.len() implies (#[trigger] init[i]).0@ != key by {
                assert(init[i] == gauges[i]);
            }
            assert(gauges[gauges.len() - 1].0@ != key);
            assert(before.metrics.dom().contains(key) <==> registry.metrics.dom().contains(key));
        }
    }
}

/// The gauges of a reading have different names.
pub proof fn lemma_gauge_names_differ(with_process: bool)
    ensures
        gauge_names(with_process).no_duplicates(),
{
    reveal_strlit("sys_cpu_usage");
    reveal_strlit("process_cpu_usage");
    reveal_strlit("process_mem_rss_bytes");
    reveal_strlit("process_mem_virtual_bytes");
    reveal_strlit("sys_mem_total_bytes");
    reveal_strlit("sys_mem_used_bytes");
    reveal_strlit("sys_mem_available_bytes");
    reveal_strlit("disk_total_bytes");
    reveal_strlit("disk_used_bytes");
    reveal_strlit("disk_available_bytes");
    reveal_strlit("net_bytes_sent");
    reveal_strlit("net_bytes_recv");
    reveal_strlit("process_uptime_secs");
    assert("sys_mem_total_bytes"@[0] == 's');
    assert("process_uptime_secs"@[0] == 'p');
    assert("net_bytes_sent"@[10] == 's');
    assert("net_bytes_recv"@[10] == 'r');
    let names = gauge_names(with_process);
    assert forall|i: int, j: int| 0 <= i < j < names.len() implies names[i] != names[j] by {
        let k: int = if with_process {
            3
        } else {
            0
        };
        assert(names[0].len() == 13);
        assert(with_process ==> names[1].len() == 17 && names[2].len() == 21 && names[3].len()
            == 25);
        assert(names[k + 1].len() == 19 && names[k + 1][0] == 's');
        assert(names[k + 2].len() == 18);
        assert(names[k + 3].len() == 23);
        assert(names[k + 4].len() == 16);
        assert(names[k + 5].len() == 15);
        assert(names[k + 6].len() == 20);
        assert(names[k + 7].len() == 14 && names[k + 7][10] == 's');
        assert(names[k + 8].len() == 14 && names[k + 8][10] == 'r');
        assert(names[k + 9].len() == 19 && names[k + 9][0] == 'p');
    }
}

/// After a reading was recorded, the newest sample of each of its gauges is what was read, and
/// nothing but those metrics has changed.
pub proof fn lemma_reading_recorded<
    V: Copy + Default + Add<Output = V>,
    F: Fn(u64) -> V,
    G: Fn(i128) -> V,
>(registry: Registry<V>, reading: SystemReading<V>, convert: F, seconds: G, after: Registry<V>)
    requires
        has_room_for_samples(registry),
        with_reading(registry, reading, convert, seconds, after),
    ensures
        after == (Registry { metrics: after.metrics, ..registry }),
        newest_value(after, "sys_cpu_usage"@) == Some(reading.cpu),
        reading.process matches Some(process) ==> newest_value(after, "process_cpu_usage"@) == Some(
            process.cpu,
        ),
        newest_value(after, "sys_mem_used_bytes"@) matches Some(v) && call_ensures(
            convert,
            (reading.memory_used,),
            v,
        ),
        newest_value(after, "sys_mem_total_bytes"@) matches Some(v) && call_ensures(
            convert,
            (reading.memory_total,),
            v,
        ),
        newest_value(after, "sys_mem_available_bytes"@) matches Some(v) && call_ensures(
            convert,
            (reading.memory_available,),
            v,
        ),
        exists|time: SystemTime|
            (newest_value(after, "process_uptime_secs"@) matches Some(v) && call_ensures(
                seconds,
                ((#[trigger] epoch_millis(time) - registry.started_at) as i128,),
                v,
            )),
{
    let (time, uptime, gauges, times) = choose|
        time: SystemTime,
        uptime: V,
        gauges: Seq<(&'static str, V)>,
        times: Seq<SystemTime>,
    |
        {
            &&& #[trigger] uptime_is(registry, seconds, time, uptime)
            &&& #[trigger] reads(reading, convert, uptime, gauges)
            &&& times.len() == gauges.len()
            &&& after == #[trigger] with_gauges(registry, gauges, times)
        };
    let names = gauges.map_values(|gauge: (&'static str, V)| gauge.0@);
    assert(names.len() == gauges.len());
    lemma_gauge_names_differ(reading.process is Some);
    assert forall|i: int, j: int|
        #![trigger gauges[i], gauges[j]]
        0 <= i < j < gauges.len() implies gauges[i].0@ != gauges[j].0@ by {
        assert(names[i] != names[j]);
        assert(names[i] == gauges[i].0@);
        assert(names[j] == gauges[j].0@);
    }
    lemma_gauges_recorded(registry, gauges, times);
    let k: int = if reading.process is Some {
        3
    } else {
        0
    };
    assert(names[0] == gauges[0].0@);
    assert(names[1] == gauges[1].0@);
    assert(names[k + 1] == gauges[k + 1].0@);
    assert(names[k + 2] == gauges[k + 2].0@);
    assert(names[k + 3] == gauges[k + 3].0@);
    assert(names[k + 9] == gauges[k + 9].0@);
    assert(call_ensures(
        seconds,
        ((epoch_millis(time) - registry.started_at) as i128,),
        gauges[k + 9].1,
    ));
}

/// The newest value of the metric of a key, if any.
pub open spec fn newest_value<V>(registry: Registry<V>, key: Seq<char>) -> Option<V> {
    if registry.metrics.dom().contains(key) && registry.metrics[key].samples.len() > 0 {
        Some(registry.metrics[key].samples.last().value)
    } else {
        None
    }
}

/// Recording a reading makes what was read the newest sample of each gauge.
pub proof fn lemma_record_reading<
    V: Copy + Default + Add<Output = V>,
    F: Fn(u64) -> V,
    G: Fn(i128) -> V,
>(reading: SystemReading<V>, convert: F, seconds: G)
    ensures
        forall|r: &mut MetricsRegistry<V>|
            (*r).wf() && #[trigger] call_ensures(
                record_system_reading::<V, F, G>,
                (r, &reading, convert, seconds),
                (),
            ) ==> {
                let after = (*final(r))@;
                &&& after == (Registry { metrics: after.metrics, ..(*r)@ })
                &&& newest_value(after, "sys_cpu_usage"@) == Some(reading.cpu)
                &&& newest_value(after, "sys_mem_used_bytes"@) matches Some(v) && call_ensures(
                    convert,
                    (reading.memory_used,),
                    v,
                )
            },
{
    assert forall|r: &mut MetricsRegistry<V>|
        (*r).wf() && #[trigger] call_ensures(
            record_system_reading::<V, F, G>,
            (r, &reading, convert, seconds),
            (),
        ) implies {
        let after = (*final(r))@;
        &&& after == (Registry { metrics: after.metrics, ..(*r)@ })
        &&& newest_value(after, "sys_cpu_usage"@) == Some(reading.cpu)
        &&& newest_value(after, "sys_mem_used_bytes"@) matches Some(v) && call_ensures(
            convert,
            (reading.memory_used,),
            v,
        )
    } by {
        (*r).lemma_bounded();
        lemma_reading_recorded((*r)@, reading, convert, seconds, (*final(r))@);
    }
}

/// After a reading was recorded, the newest value of every gauge of the reading is the value that
/// was recorded for it.
pub proof fn lemma_every_gauge_recorded<
    V: Copy + Default + Add<Output = V>,
    F: Fn(u64) -> V,
    G: Fn(i128) -> V,
>(registry: Registry<V>, reading: SystemReading<V>, convert: F, seconds: G, after: Registry<V>)
    requires
        has_room_for_samples(registry),
        with_reading(registry, reading, convert, seconds, after),
    ensures
        exists|uptime: V, gauges: Seq<(&'static str, V)>|
            {
                &&& #[trigger] reads(reading, convert, uptime, gauges)
                &&& forall|i: int|
                    0 <= i < gauges.len() ==> newest_value(after, (#[trigger] gauges[i]).0@)
                        == Some(gauges[i].1)
            },
{
    let (time, uptime, gauges, times) = choose|
        time: SystemTime,
        uptime: V,
        gauges: Seq<(&'static str, V)>,
        times: Seq<SystemTime>,
    |
        {
            &&& #[trigger] uptime_is(registry, seconds, time, uptime)
            &&& #[trigger] reads(reading, convert, uptime, gauges)
            &&& times.len() == gauges.len()
            &&& after == #[trigger] with_gauges(registry, gauges, times)
        };
    let names = gauges.map_values(|gauge: (&'static str, V)| gauge.0@);
    assert(names.len() == gauges.len());
    lemma_gauge_names_differ(reading.process is Some);
    assert forall|i: int, j: int|
        #![trigger gauges[i], gauges[j]]
        0 <= i < j < gauges.len() implies gauges[i].0@ != gauges[j].0@ by {
        assert(names[i] != names[j]);
        assert(names[i] == gauges[i].0@);
        assert(names[j] == gauges[j].0@);
    }
    lemma_gauges_recorded(registry, gauges, times);
}

} // verus!
