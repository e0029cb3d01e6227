//! What is known of the processors of a node.
use std::ops::Add;

use vstd::prelude::*;

use crate::monitor::text_map::TextMap;
use crate::text::{decimal, decimal_text, lemma_decimal_injective, lemma_decimal_shape};

verus! {

/// What a stage has taken so far.
#[derive(Debug, Clone, Copy)]
pub struct StageStats<V> {
    /// Milliseconds, in all.
    pub duration_ms: V,
    /// The number of calls.
    pub calls: u64,
}

/// What is known of a processor.
#[derive(Debug)]
pub struct ProcessorInfo<V> {
    pub id: String,
    pub job_id: String,
    pub so_path: String,
    pub fn_name: String,
    pub partition: usize,
    pub key: Option<String>,
    /// `init`, `feed`, `execute`, `fetch`, `finish` or `done`.
    pub stage: String,
    pub rows_in: u64,
    pub rows_out: u64,
    pub bytes_in: u64,
    pub bytes_out: u64,
    pub created_at: i64,
    pub last_activity_at: i64,
    pub finished_at: Option<i64>,
    /// By stage.
    pub stage_stats: TextMap<StageStats<V>>,
}

/// What a processor is.
pub struct Processor<V> {
    pub id: Seq<char>,
    pub job_id: Seq<char>,
    pub so_path: Seq<char>,
    pub fn_name: Seq<char>,
    pub partition: usize,
    pub key: Option<Seq<char>>,
    pub stage: Seq<char>,
    pub rows_in: u64,
    pub rows_out: u64,
    pub bytes_in: u64,
    pub bytes_out: u64,
    pub created_at: i64,
    pub last_activity_at: i64,
    pub finished_at: Option<i64>,
    pub stage_stats: Map<Seq<char>, StageStats<V>>,
}

impl<V> View for ProcessorInfo<V> {
    type V = Processor<V>;

    open spec fn view(&self) -> Processor<V> {
        Processor {
            id: self.id@,
            job_id: self.job_id@,
            so_path: self.so_path@,
            fn_name: self.fn_name@,
            partition: self.partition,
            key: match self.key {
                Some(key) => Some(key@),
                None => None,
            },
            stage: self.stage@,
            rows_in: self.rows_in,
            rows_out: self.rows_out,
            bytes_in: self.bytes_in,
            bytes_out: self.bytes_out,
            created_at: self.created_at,
            last_activity_at: self.last_activity_at,
            finished_at: self.finished_at,
            stage_stats: self.stage_stats@,
        }
    }
}

/// The processors in a list.
pub open spec fn processor_views<V>(processors: Seq<ProcessorInfo<V>>) -> Seq<Processor<V>> {
    processors.map_values(|p: ProcessorInfo<V>| p@)
}

/// The identifier of the `seq`-th processor of a node.
pub open spec fn processor_id(seq: nat, partition: nat) -> Seq<char> {
    decimal(seq) + "-"@ + decimal(partition)
}

/// Where the first minus sign of an identifier stands.
proof fn lemma_id_shape(seq: nat, partition: nat)
    ensures
        processor_id(seq, partition)[decimal(seq).len() as int] == '-',
        forall|i: int|
            0 <= i < decimal(seq).len() ==> (#[trigger] processor_id(seq, partition)[i]) != '-',
        processor_id(seq, partition).take(decimal(seq).len() as int) == decimal(seq),
        processor_id(seq, partition).skip(decimal(seq).len() as int + 1) == decimal(partition),
        processor_id(seq, partition).len() > decimal(seq).len(),
{
    reveal_strlit("-");
    lemma_decimal_shape(seq);
    let id = processor_id(seq, partition);
    assert forall|i: int| 0 <= i < decimal(seq).len() implies (#[trigger] id[i]) != '-' by {
        assert(id[i] == decimal(seq)[i]);
    }
    assert(id.take(decimal(seq).len() as int) =~= decimal(seq));
    assert(id.skip(decimal(seq).len() as int + 1) =~= decimal(partition));
}

/// A processor is known by its identifier.
pub proof fn lemma_id_injective(a: nat, p: nat, b: nat, q: nat)
    ensures
        processor_id(a, p) == processor_id(b, q) ==> a == b && p == q,
{
    if processor_id(a, p) == processor_id(b, q) {
        lemma_id_shape(a, p);
        lemma_id_shape(b, q);
        let n = decimal(a).len();
        let m = decimal(b).len();
        assert(n == m) by {
            if n < m {
                assert(processor_id(b, q)[n as int] != '-');
            }
            if m < n {
                assert(processor_id(a, p)[m as int] != '-');
            }
        }
        lemma_decimal_injective(a, b);
        lemma_decimal_injective(p, q);
    }
}

/// The identifier of the `seq`-th processor of a node.
pub fn make_processor_id(seq: u64, partition: usize) -> (id: String)
    ensures
        id@ == processor_id(seq as nat, partition as nat),
{
    let mut id = decimal_text(seq);
    id.append("-");
    id.append(decimal_text(partition as u64).as_str());
    id
}

/// The first processor with an identifier.
pub open spec fn first_with_id<V>(processors: Seq<Processor<V>>, id: Seq<char>) -> Option<int>
    decreases processors.len(),
{
    if processors.len() == 0 {
        None
    } else {
        match first_with_id(processors.drop_last(), id) {
            Some(i) => Some(i),
            None => if processors.last().id == id {
                Some(processors.len() - 1)
            } else {
                None
            },
        }
    }
}

/// The first processor with an identifier has it, and none before it does.
pub proof fn lemma_first_with_id<V>(processors: Seq<Processor<V>>, id: Seq<char>)
    ensures
        first_with_id(processors, id) matches Some(i) ==> {
            &&& 0 <= i < processors.len()
            &&& processors[i].id == id
            &&& forall|j: int| 0 <= j < i ==> (#[trigger] processors[j]).id != id
        },
        first_with_id(processors, id) is None ==> forall|j: int|
            0 <= j < processors.len() ==> (#[trigger] processors[j]).id != id,
    decreases processors.len(),
{
    if processors.len() > 0 {
        let init = processors.drop_last();
        lemma_first_with_id(init, id);
        assert(forall|j: int| 0 <= j < init.len() ==> init[j] == #[trigger] processors[j]);
    }
}

/// Finds the first processor with an identifier.
pub fn find_processor<V>(processors: &Vec<ProcessorInfo<V>>, id: &str) -> (found: Option<usize>)
    ensures
        first_with_id(processor_views(processors@), id@) == (match found {
            Some(i) => Some(i as int),
            None => None,
        }),
{
    let wanted = id.to_owned();
    let ghost views = processor_views(processors@);
    let mut i: usize = 0;
    while i < processors.len()
        invariant
            i <= processors@.len(),
            wanted@ == id@,
            views == processor_views(processors@),
            forall|j: int| 0 <= j < i ==> (#[trigger] views[j]).id != id@,
        decreases processors@.len() - i,
    {
        if processors[i].id == wanted {
            proof {
                lemma_first_with_id(views, id@);
                assert(views[i as int].id == id@);
            }
            return Some(i);
        }
        i = i + 1;
    }
    proof {
        lemma_first_with_id(views, id@);
    }
    None
}

/// Values can be added up, from the default one on.
pub open spec fn summable<V: Copy + Default + Add<Output = V>>() -> bool {
    &&& call_requires(V::default, ())
    &&& forall|a: V, b: V| call_requires(V::add, (a, b))
}

/// The number of calls of a stage so far.
pub open spec fn calls_before<V>(stats: Map<Seq<char>, StageStats<V>>, stage: Seq<char>) -> u64 {
    if stats.dom().contains(stage) {
        stats[stage].calls
    } else {
        0
    }
}

/// What a stage has taken so far; `zero` where it was not called.
pub open spec fn time_before<V>(
    stats: Map<Seq<char>, StageStats<V>>,
    stage: Seq<char>,
    zero: V,
) -> V {
    if stats.dom().contains(stage) {
        stats[stage].duration_ms
    } else {
        zero
    }
}

/// `after` counts one more call of `stage` than `stats`, and `duration` on top.
pub open spec fn timed<V: Copy + Default + Add<Output = V>>(
    stats: Map<Seq<char>, StageStats<V>>,
    stage: Seq<char>,
    duration: V,
    after: Map<Seq<char>, StageStats<V>>,
) -> bool {
    exists|zero: V, sum: V|
        {
            &&& #[trigger] call_ensures(V::default, (), zero)
            &&& #[trigger] call_ensures(V::add, (time_before(stats, stage, zero), duration), sum)
            &&& after == stats.insert(
                stage,
                StageStats { duration_ms: sum, calls: (calls_before(stats, stage) + 1) as u64 },
            )
        }
}

/// Counts a call of `stage`.
fn add_time<V: Copy + Default + Add<Output = V>>(
    stats: &mut TextMap<StageStats<V>>,
    stage: &str,
    duration: V,
)
    requires
        old(stats).wf(),
        summable::<V>(),
        calls_before(old(stats)@, stage@) < u64::MAX,
    ensures
        final(stats).wf(),
        timed(old(stats)@, stage@, duration, final(stats)@),
{
    let ghost before = stats@;
    let zero = V::default();
    let (taken, calls) = match stats.get(stage) {
        Some(held) => (held.duration_ms, held.calls),
        None => (zero, 0),
    };
    let sum = taken + duration;
    stats.insert(stage.to_owned(), StageStats { duration_ms: sum, calls: calls + 1 });
    proof {
        assert(taken == time_before(before, stage@, zero));
        assert(call_ensures(V::default, (), zero));
        assert(call_ensures(V::add, (time_before(before, stage@, zero), duration), sum));
    }
}

/// What a call of `stage` adds.
pub struct Work {
    pub rows_in: u64,
    pub rows_out: u64,
    pub bytes_in: u64,
    pub bytes_out: u64,
}

/// The counters of `p` have room for `work`, and that of `stage` for a call.
pub open spec fn has_room<V>(p: Processor<V>, stage: Seq<char>, work: Work) -> bool {
    &&& p.rows_in + work.rows_in <= u64::MAX
    &&& p.rows_out + work.rows_out <= u64::MAX
    &&& p.bytes_in + work.bytes_in <= u64::MAX
    &&& p.bytes_out + work.bytes_out <= u64::MAX
    &&& calls_before(p.stage_stats, stage) < u64::MAX
}

/// `after` is `p` after a call of `stage` that took `duration` and did `work`.
pub open spec fn worked<V: Copy + Default + Add<Output = V>>(
    p: Processor<V>,
    now: i64,
    stage: Seq<char>,
    work: Work,
    duration: V,
    after: Processor<V>,
) -> bool {
    &&& timed(p.stage_stats, stage, duration, after.stage_stats)
    &&& after == Processor {
        stage,
        rows_in: (p.rows_in + work.rows_in) as u64,
        rows_out: (p.rows_out + work.rows_out) as u64,
        bytes_in: (p.bytes_in + work.bytes_in) as u64,
        bytes_out: (p.bytes_out + work.bytes_out) as u64,
        last_activity_at: now,
        stage_stats: after.stage_stats,
        ..p
    }
}

/// `after` is `p` finished, which took `duration`.
pub open spec fn finished<V: Copy + Default + Add<Output = V>>(
    p: Processor<V>,
    now: i64,
    duration: V,
    after: Processor<V>,
) -> bool {
    &&& timed(p.stage_stats, "finish"@, duration, after.stage_stats)
    &&& after == Processor {
        stage: "done"@,
        last_activity_at: now,
        finished_at: Some(now),
        stage_stats: after.stage_stats,
        ..p
    }
}

/// A processor that was just initialised, which took `duration`.
pub open spec fn fresh_processor<V>(
    id: Seq<char>,
    now: i64,
    job_id: Seq<char>,
    so_path: Seq<char>,
    fn_name: Seq<char>,
    partition: usize,
    key: Option<Seq<char>>,
    duration: V,
) -> Processor<V> {
    Processor {
        id,
        job_id,
        so_path,
        fn_name,
        partition,
        key,
        stage: "init"@,
        rows_in: 0,
        rows_out: 0,
        bytes_in: 0,
        bytes_out: 0,
        created_at: now,
        last_activity_at: now,
        finished_at: None,
        stage_stats: Map::empty().insert("init"@, StageStats { duration_ms: duration, calls: 1 }),
    }
}

impl<V: Copy + Default + Add<Output = V>> ProcessorInfo<V> {
    /// A processor that was just initialised.
    pub fn fresh(
        id: String,
        now: i64,
        job_id: &str,
        so_path: &str,
        fn_name: &str,
        partition: usize,
        key: Option<&str>,
        duration: V,
    ) -> (p: ProcessorInfo<V>)
        ensures
            p.stage_stats.wf(),
            p@ == fresh_processor(
                id@,
                now,
                job_id@,
                so_path@,
                fn_name@,
                partition,
                match key {
                    Some(key) => Some(key@),
                    None => None,
                },
                duration,
            ),
    {
        let mut stage_stats: TextMap<StageStats<V>> = TextMap::new();
        stage_stats.insert("init".to_owned(), StageStats { duration_ms: duration, calls: 1 });
        ProcessorInfo {
            id,
            job_id: job_id.to_owned(),
            so_path: so_path.to_owned(),
            fn_name: fn_name.to_owned(),
            partition,
            key: match key {
                Some(key) => Some(key.to_owned()),
                None => None,
            },
            stage: "init".to_owned(),
            rows_in: 0,
            rows_out: 0,
            bytes_in: 0,
            bytes_out: 0,
            created_at: now,
            last_activity_at: now,
            finished_at: None,
            stage_stats,
        }
    }

    /// Counts a call of `stage`.
    pub fn work(&mut self, now: i64, stage: &str, work: Work, duration: V)
        requires
            old(self).stage_stats.wf(),
            summable::<V>(),
            has_room(old(self)@, stage@, work),
        ensures
            final(self).stage_stats.wf(),
            worked(old(self)@, now, stage@, work, duration, final(self)@),
    {
        self.stage = stage.to_owned();
        self.rows_in = self.rows_in + work.rows_in;
        self.rows_out = self.rows_out + work.rows_out;
        self.bytes_in = self.bytes_in + work.bytes_in;
        self.bytes_out = self.bytes_out + work.bytes_out;
        add_time(&mut self.stage_stats, stage, duration);
        self.last_activity_at = now;
    }

    /// Marks the processor as finished.
    pub fn finish(&mut self, now: i64, duration: V)
        requires
            old(self).stage_stats.wf(),
            summable::<V>(),
            calls_before(old(self)@.stage_stats, "finish"@) < u64::MAX,
        ensures
            final(self).stage_stats.wf(),
            finished(old(self)@, now, duration, final(self)@),
    {
        self.stage = "done".to_owned();
        add_time(&mut self.stage_stats, "finish", duration);
        self.last_activity_at = now;
        self.finished_at = Some(now);
    }

    /// Whether the processor is finished.
    pub fn is_done(&self) -> (done: bool)
        ensures
            done == (self@.stage == "done"@),
    {
        self.stage == "done".to_owned()
    }
}

} // verus!
