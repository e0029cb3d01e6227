//! Samples in the order of their times.
use vstd::prelude::*;

use crate::monitor::metrics::MetricSample;

verus! {

/// `samples` come in the order of their times.
pub open spec fn in_time_order<V>(samples: Seq<MetricSample<V>>) -> bool {
    forall|i: int, j: int|
        #![trigger samples[i], samples[j]]
        0 <= i < j < samples.len() ==> samples[i].timestamp <= samples[j].timestamp
}

/// The samples of one time, in their order.
pub open spec fn at_time<V>(samples: Seq<MetricSample<V>>, time: i64) -> Seq<MetricSample<V>>
    decreases samples.len(),
{
    if samples.len() == 0 {
        Seq::empty()
    } else {
        let before = at_time(samples.drop_last(), time);
        if samples.last().timestamp == time {
            before.push(samples.last())
        } else {
            before
        }
    }
}

/// `sorted` are the samples of `samples` in the order of their times, those of the same
/// time in the order they had.
pub open spec fn time_sorted<V>(
    samples: Seq<MetricSample<V>>,
    sorted: Seq<MetricSample<V>>,
) -> bool {
    &&& in_time_order(sorted)
    &&& forall|time: i64| #[trigger] at_time(sorted, time) == at_time(samples, time)
}

/// The samples of one time in two lists, one after the other.
proof fn lemma_at_time_append<V>(a: Seq<MetricSample<V>>, b: Seq<MetricSample<V>>, time: i64)
    ensures
        at_time(a + b, time) == at_time(a, time) + at_time(b, time),
    decreases b.len(),
{
    if b.len() == 0 {
        assert(a + b =~= a);
        assert(at_time(a, time) + at_time(b, time) =~= at_time(a, time));
    } else {
        assert((a + b).drop_last() =~= a + b.drop_last());
        lemma_at_time_append(a, b.drop_last(), time);
        assert(at_time(a + b, time) =~= at_time(a, time) + at_time(b, time));
    }
}

/// There are no samples of a time before that of all samples.
proof fn lemma_none_at_time<V>(samples: Seq<MetricSample<V>>, time: i64)
    requires
        forall|i: int| 0 <= i < samples.len() ==> (#[trigger] samples[i]).timestamp > time,
    ensures
        at_time(samples, time) == Seq::<MetricSample<V>>::empty(),
    decreases samples.len(),
{
    if samples.len() > 0 {
        assert(samples[samples.len() - 1].timestamp > time);
        lemma_none_at_time(samples.drop_last(), time);
    }
}

/// A sample in its place comes behind those of the same time.
proof fn lemma_placed<V>(samples: Seq<MetricSample<V>>, i: int, sample: MetricSample<V>)
    requires
        in_time_order(samples),
        0 <= i <= samples.len(),
        forall|j: int| 0 <= j < i ==> (#[trigger] samples[j]).timestamp <= sample.timestamp,
        forall|j: int|
            i <= j < samples.len() ==> (#[trigger] samples[j]).timestamp > sample.timestamp,
    ensures
        in_time_order(samples.insert(i, sample)),
        forall|time: i64| #[trigger]
            at_time(samples.insert(i, sample), time) == at_time(samples.push(sample), time),
{
    let now = samples.insert(i, sample);
    let a = samples.take(i);
    let b = samples.skip(i);
    assert forall|time: i64| #[trigger] at_time(now, time) == at_time(
        samples.push(sample),
        time,
    ) by {
        assert(now =~= a.push(sample) + b);
        assert(samples =~= a + b);
        lemma_at_time_append(a.push(sample), b, time);
        lemma_at_time_append(a, b, time);
        assert(a.push(sample).drop_last() =~= a);
        assert(samples.push(sample).drop_last() =~= samples);
        if time == sample.timestamp {
            lemma_none_at_time(b, time);
        }
        assert(at_time(now, time) =~= at_time(samples.push(sample), time));
    }
    assert forall|x: int, y: int|
        #![trigger now[x], now[y]]
        0 <= x < y < now.len() implies now[x].timestamp <= now[y].timestamp by {
        let p = if x < i {
            x
        } else {
            x - 1
        };
        let q = if y < i {
            y
        } else {
            y - 1
        };
        if x != i {
            assert(now[x] == samples[p]);
        }
        if y != i {
            assert(now[y] == samples[q]);
        }
    }
}

/// Puts samples in the order of their times.
pub fn sort_by_time<V: Copy>(samples: &Vec<MetricSample<V>>) -> (sorted: Vec<MetricSample<V>>)
    ensures
        time_sorted(samples@, sorted@),
{
    let mut sorted: Vec<MetricSample<V>> = Vec::new();
    let mut i: usize = 0;
    assert(samples@.take(0) =~= Seq::<MetricSample<V>>::empty());
    while i < samples.len()
        invariant
            i <= samples@.len(),
            time_sorted(samples@.take(i as int), sorted@),
        decreases samples@.len() - i,
    {
        let sample = samples[i];
        let mut place: usize = sorted.len();
        while place > 0 && sorted[place - 1].timestamp > sample.timestamp
            invariant
                place <= sorted@.len(),
                forall|j: int|
                    place <= j < sorted@.len() ==> (#[trigger] sorted@[j]).timestamp
                        > sample.timestamp,
            decreases place,
        {
            place = place - 1;
        }
        let ghost before = sorted@;
        proof {
            let known = samples@.take(i as int);
            let now = samples@.take(i + 1);
            lemma_placed(before, place as int, sample);
            assert(now.drop_last() =~= known);
            assert forall|time: i64| #[trigger] at_time(before.push(sample), time) == at_time(
                now,
                time,
            ) by {
                assert(before.push(sample).drop_last() =~= before);
                assert(at_time(before, time) == at_time(known, time));
            }
        }
        sorted.insert(place, sample);
        i = i + 1;
    }
    assert(samples@.take(i as int) =~= samples@);
    sorted
}

} // verus!
