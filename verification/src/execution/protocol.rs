//! What holds of every run of a partition, whatever the events.
use vstd::prelude::*;
use vstd::std_specs::cmp::PartialEqSpec;

use crate::execution::lifecycle::{
    expects, initial, next, processor_count, route, state_wf, Action, Event, Phase, Stage, State,
};
use crate::grouping::{key_order, lemma_key_order, lemma_key_order_push};
use crate::keys::{is_key, lemma_index_of};

verus! {

/// The state of a run after `events`.
pub open spec fn state_after<K: PartialEq, B, E>(
    grouped: bool,
    events: Seq<Event<K, B, E>>,
) -> State<K, B>
    decreases events.len(),
{
    if events.len() == 0 {
        initial(grouped)
    } else {
        next(state_after(grouped, events.drop_last()), events.last()).0
    }
}

/// The action that a run asks for after `events`.
pub open spec fn action_after<K: PartialEq, B, E>(
    grouped: bool,
    events: Seq<Event<K, B, E>>,
) -> Action<B, E> {
    if events.len() == 0 {
        Action::Lookup(Stage::Init)
    } else {
        next(state_after(grouped, events.drop_last()), events.last()).1
    }
}

/// Each of `events` answers the action before it.
pub open spec fn possible<K: PartialEq, B, E>(grouped: bool, events: Seq<Event<K, B, E>>) -> bool
    decreases events.len(),
{
    events.len() > 0 ==> {
        let before = events.drop_last();
        &&& possible(grouped, before)
        &&& expects(state_after(grouped, before), events.last())
        &&& state_after(grouped, before).keys.len() < usize::MAX
    }
}

/// `action` is what `phase` waits for.
pub open spec fn waits_for<B, E>(phase: Phase, action: Action<B, E>) -> bool {
    match phase {
        Phase::Lookup(stage) => action == Action::<B, E>::Lookup(stage),
        Phase::Encode => action is EncodeSchema,
        Phase::Init(p) => action == Action::<B, E>::Init(p),
        Phase::Input => action is NextBatch,
        Phase::Feed(p) => action matches Action::Feed(q, _) && p == q,
        Phase::Execute(p) => action == Action::<B, E>::Execute(p),
        Phase::Fetch(p) => action == Action::<B, E>::Fetch(p),
        Phase::Emit(p) => action == Action::<B, E>::Emit(p),
        Phase::Finish(p) => action == Action::<B, E>::Finish(p),
        Phase::Done => action is Done,
        Phase::Failed => action is Fail,
    }
}

/// One step keeps the invariant, the mode and the tie between phase and action.
proof fn lemma_step<K: PartialEq, B, E>(state: State<K, B>, event: Event<K, B, E>)
    requires
        is_key::<K>(),
        state_wf(state),
        state.keys.len() < usize::MAX,
        expects(state, event),
    ensures
        state_wf(next(state, event).0),
        waits_for(next(state, event).0.phase, next(state, event).1),
        next(state, event).0.grouped == state.grouped,
{
    if let Event::Parts(parts) = event {
        if parts@.len() > 0 {
            lemma_index_of(state.keys, parts@[0].0);
        }
    }
    if state.parts.len() > 0 {
        lemma_index_of(state.keys, state.parts[0].0);
    }
}

/// A run is well-formed at every step and asks for the action that it waits for.
pub proof fn lemma_run<K: PartialEq, B, E>(grouped: bool, events: Seq<Event<K, B, E>>)
    requires
        is_key::<K>(),
        possible(grouped, events),
    ensures
        state_wf(state_after(grouped, events)),
        waits_for(state_after(grouped, events).phase, action_after(grouped, events)),
        state_after(grouped, events).grouped == grouped,
    decreases events.len(),
{
    if events.len() > 0 {
        lemma_run(grouped, events.drop_last());
        lemma_step(state_after(grouped, events.drop_last()), events.last());
    }
}

/// How far a processor has come.
pub enum Progress {
    /// Not initialised.
    Fresh,
    /// Initialised; may be fed.
    Open,
    /// Executed; may be fetched from.
    Executed,
    /// A fetch wrote a batch that was not sent on yet.
    Holding,
    /// A fetch said that there is no more.
    Drained,
    /// Finished.
    Finished,
    /// A function was called out of order.
    Misused,
}

/// What `action`, answered by `event`, means for processor `p`.
pub open spec fn advance<K, B, E>(
    progress: Progress,
    p: usize,
    action: Action<B, E>,
    event: Event<K, B, E>,
) -> Progress {
    match action {
        Action::Init(q) => if q != p {
            progress
        } else if progress is Fresh && event is Ready {
            Progress::Open
        } else {
            Progress::Misused
        },
        Action::Feed(q, _) => if q != p {
            progress
        } else if progress is Open && event == Event::<K, B, E>::Code(0) {
            Progress::Open
        } else {
            Progress::Misused
        },
        Action::Execute(q) => if q != p {
            progress
        } else if progress is Open && event == Event::<K, B, E>::Code(0) {
            Progress::Executed
        } else {
            Progress::Misused
        },
        Action::Fetch(q) => if q != p {
            progress
        } else if progress is Executed && event == Event::<K, B, E>::Code(1) {
            Progress::Drained
        } else if progress is Executed && (event matches Event::Code(c) && c >= 0) {
            Progress::Holding
        } else {
            Progress::Misused
        },
        Action::Emit(q) => if q != p {
            progress
        } else if progress is Holding && event is Sent {
            Progress::Executed
        } else {
            Progress::Misused
        },
        Action::Finish(q) => if q != p {
            progress
        } else if progress is Drained && event == Event::<K, B, E>::Code(0) {
            Progress::Finished
        } else {
            Progress::Misused
        },
        _ => progress,
    }
}

/// How far processor `p` has come after `events`.
pub open spec fn progress_after<K: PartialEq, B, E>(
    grouped: bool,
    events: Seq<Event<K, B, E>>,
    p: usize,
) -> Progress
    decreases events.len(),
{
    if events.len() == 0 {
        Progress::Fresh
    } else {
        let before = events.drop_last();
        advance(
            progress_after(grouped, before, p),
            p,
            action_after(grouped, before),
            events.last(),
        )
    }
}

/// How far processor `p` is in `state`.
pub open spec fn progress_in<K, B>(state: State<K, B>, p: usize) -> Progress {
    let n = processor_count(state);
    match state.phase {
        Phase::Lookup(stage) => if state.grouped || p > 0 {
            Progress::Fresh
        } else {
            match stage {
                Stage::Init => Progress::Fresh,
                Stage::Feed => Progress::Open,
                Stage::Execute => Progress::Open,
                Stage::Fetch => Progress::Executed,
                Stage::Finish => Progress::Drained,
            }
        },
        Phase::Encode => Progress::Fresh,
        Phase::Init(q) => if p < q {
            Progress::Open
        } else {
            Progress::Fresh
        },
        Phase::Input | Phase::Feed(_) => if p < n {
            Progress::Open
        } else {
            Progress::Fresh
        },
        Phase::Execute(q) => if p >= n {
            Progress::Fresh
        } else if p < q {
            Progress::Executed
        } else {
            Progress::Open
        },
        Phase::Fetch(q) => if p >= n {
            Progress::Fresh
        } else if p < q {
            Progress::Drained
        } else {
            Progress::Executed
        },
        Phase::Emit(q) => if p >= n {
            Progress::Fresh
        } else if p < q {
            Progress::Drained
        } else if p == q {
            Progress::Holding
        } else {
            Progress::Executed
        },
        Phase::Finish(q) => if p >= n {
            Progress::Fresh
        } else if p < q {
            Progress::Finished
        } else {
            Progress::Drained
        },
        Phase::Done => if p >= n {
            Progress::Fresh
        } else {
            Progress::Finished
        },
        Phase::Failed => Progress::Misused,
    }
}

/// No run calls the functions of a processor out of order. Each processor is
/// initialised once, fed, executed once, fetched from until there is no more (every
/// batch being sent on before the next fetch) and finished once; the processors are
/// executed, fetched from and finished in their order, each stage for all of them
/// before the next; and a run that is complete has finished every processor.
pub proof fn lemma_protocol<K: PartialEq, B, E>(
    grouped: bool,
    events: Seq<Event<K, B, E>>,
    p: usize,
)
    requires
        is_key::<K>(),
        possible(grouped, events),
        !(state_after(grouped, events).phase is Failed),
    ensures
        progress_after(grouped, events, p) == progress_in(state_after(grouped, events), p),
        !(progress_after(grouped, events, p) is Misused),
        state_after(grouped, events).phase is Done && p < processor_count(
            state_after(grouped, events),
        ) ==> progress_after(grouped, events, p) is Finished,
    decreases events.len(),
{
    if events.len() > 0 {
        let before = events.drop_last();
        let state = state_after(grouped, before);
        lemma_run(grouped, before);
        lemma_run(grouped, events);
        lemma_protocol(grouped, before, p);
        if let Event::Parts(parts) = events.last() {
            if parts@.len() > 0 {
                lemma_index_of(state.keys, parts@[0].0);
            }
        }
        if state.parts.len() > 0 {
            lemma_index_of(state.keys, state.parts[0].0);
        }
    }
}

/// The place of an action in a run.
pub open spec fn level<B, E>(grouped: bool, action: Action<B, E>) -> int {
    match action {
        Action::Lookup(stage) => if grouped {
            0
        } else {
            match stage {
                Stage::Init => 0,
                Stage::Feed => 1,
                Stage::Execute => 2,
                Stage::Fetch => 3,
                Stage::Finish => 4,
            }
        },
        Action::EncodeSchema => 0,
        Action::Init(_) | Action::NextBatch | Action::Feed(_, _) => 1,
        Action::Execute(_) => 2,
        Action::Fetch(_) | Action::Emit(_) => 3,
        Action::Finish(_) => 4,
        Action::Done => 5,
        Action::Fail(_) => 6,
    }
}

/// No run goes back: all of the input is fed before a processor is executed, all
/// processors are executed before one is fetched from, and all are fetched from before
/// one is finished.
pub proof fn lemma_levels<K: PartialEq, B, E>(
    grouped: bool,
    events: Seq<Event<K, B, E>>,
    i: int,
    j: int,
)
    requires
        is_key::<K>(),
        possible(grouped, events),
        0 <= i <= j <= events.len(),
    ensures
        level(grouped, action_after(grouped, events.take(i))) <= level(
            grouped,
            action_after(grouped, events.take(j)),
        ),
    decreases events.len(),
{
    if i < events.len() {
        let before = events.drop_last();
        assert(before.take(i) =~= events.take(i));
        if j < events.len() {
            assert(before.take(j) =~= events.take(j));
            lemma_levels(grouped, before, i, j);
        } else {
            assert(before.take(before.len() as int) =~= before);
            assert(events.take(j) =~= events);
            lemma_levels(grouped, before, i, before.len() as int);
            lemma_run(grouped, before);
            lemma_run(grouped, events);
        }
    }
}

/// The processor that is fetched from.
pub open spec fn fetched_from<B, E>(action: Action<B, E>) -> int {
    match action {
        Action::Fetch(p) | Action::Emit(p) => p as int,
        _ => 0,
    }
}

/// Fetching goes from processor to processor, and never back.
proof fn lemma_fetches_in_order<K: PartialEq, B, E>(
    grouped: bool,
    events: Seq<Event<K, B, E>>,
    i: int,
    j: int,
)
    requires
        is_key::<K>(),
        possible(grouped, events),
        0 <= i <= j <= events.len(),
        level(grouped, action_after(grouped, events.take(i))) == 3,
        level(grouped, action_after(grouped, events.take(j))) == 3,
    ensures
        fetched_from(action_after(grouped, events.take(i))) <= fetched_from(
            action_after(grouped, events.take(j)),
        ),
    decreases events.len(),
{
    if i < events.len() {
        let before = events.drop_last();
        assert(before.take(i) =~= events.take(i));
        if j < events.len() {
            assert(before.take(j) =~= events.take(j));
            lemma_fetches_in_order(grouped, before, i, j);
        } else {
            assert(before.take(before.len() as int) =~= before);
            assert(events.take(j) =~= events);
            lemma_levels(grouped, events, i, events.len() - 1);
            lemma_levels(grouped, events, events.len() - 1, events.len() as int);
            assert(events.take(events.len() - 1) =~= before);
            lemma_fetches_in_order(grouped, before, i, before.len() as int);
            lemma_run(grouped, before);
            lemma_run(grouped, events);
        }
    }
}

/// The processors whose batches a run sends on, in its order.
pub open spec fn sent_after<K: PartialEq, B, E>(
    grouped: bool,
    events: Seq<Event<K, B, E>>,
) -> Seq<usize>
    decreases events.len(),
{
    if events.len() == 0 {
        Seq::empty()
    } else {
        let before = sent_after(grouped, events.drop_last());
        match action_after(grouped, events) {
            Action::Emit(p) => before.push(p),
            _ => before,
        }
    }
}

/// Every batch that was sent on was asked for by an action.
proof fn lemma_sent_when<K: PartialEq, B, E>(
    grouped: bool,
    events: Seq<Event<K, B, E>>,
    a: int,
) -> (i: int)
    requires
        0 <= a < sent_after(grouped, events).len(),
    ensures
        0 <= i <= events.len(),
        action_after(grouped, events.take(i)) == Action::<B, E>::Emit(
            sent_after(grouped, events)[a],
        ),
    decreases events.len(),
{
    let before = events.drop_last();
    if a < sent_after(grouped, before).len() {
        let i = lemma_sent_when(grouped, before, a);
        assert(before.take(i) =~= events.take(i));
        i
    } else {
        assert(events.take(events.len() as int) =~= events);
        events.len() as int
    }
}

/// The output goes out processor by processor, in the order of the processors, which in
/// a grouped run is that of their keys.
pub proof fn lemma_output_in_order<K: PartialEq, B, E>(grouped: bool, events: Seq<Event<K, B, E>>)
    requires
        is_key::<K>(),
        possible(grouped, events),
    ensures
        forall|a: int, b: int|
            #![trigger sent_after(grouped, events)[a], sent_after(grouped, events)[b]]
            0 <= a <= b < sent_after(grouped, events).len() ==> sent_after(grouped, events)[a]
                <= sent_after(grouped, events)[b],
    decreases events.len(),
{
    if events.len() > 0 {
        let before = events.drop_last();
        lemma_output_in_order(grouped, before);
        let earlier = sent_after(grouped, before);
        let all = sent_after(grouped, events);
        assert forall|a: int, b: int| #![trigger all[a], all[b]] 0 <= a <= b < all.len() implies all[a]
            <= all[b] by {
            if b < earlier.len() {
                assert(earlier[a] <= earlier[b]);
            } else {
                let i = lemma_sent_when(grouped, events, a);
                assert(events.take(events.len() as int) =~= events);
                lemma_fetches_in_order(grouped, events, i, events.len() as int);
            }
        }
    }
}

/// The parts that a grouped run was handed, in their order.
pub open spec fn parts_received<K, B, E>(events: Seq<Event<K, B, E>>) -> Seq<(K, B)>
    decreases events.len(),
{
    if events.len() == 0 {
        Seq::empty()
    } else {
        match events.last() {
            Event::Parts(parts) => parts_received(events.drop_last()) + parts@,
            _ => parts_received(events.drop_last()),
        }
    }
}

/// The batches that a run with a single processor was handed, in their order.
pub open spec fn batches_received<K, B, E>(events: Seq<Event<K, B, E>>) -> Seq<B>
    decreases events.len(),
{
    if events.len() == 0 {
        Seq::empty()
    } else {
        match events.last() {
            Event::Whole(batch) => batches_received(events.drop_last()).push(batch),
            _ => batches_received(events.drop_last()),
        }
    }
}

/// What a run asks to be fed, and to which processor, in its order.
pub open spec fn fed_after<K: PartialEq, B, E>(
    grouped: bool,
    events: Seq<Event<K, B, E>>,
) -> Seq<(usize, B)>
    decreases events.len(),
{
    if events.len() == 0 {
        Seq::empty()
    } else {
        let before = fed_after(grouped, events.drop_last());
        match action_after(grouped, events) {
            Action::Feed(p, part) => before.push((p, part)),
            _ => before,
        }
    }
}

/// The keys of `parts`.
pub open spec fn part_keys<K, B>(parts: Seq<(K, B)>) -> Seq<Option<K>> {
    parts.map_values(|part: (K, B)| Some(part.0))
}

/// What ties the state of a grouped run to the parts it has received and fed.
pub(crate) open spec fn routed<K: PartialEq, B>(
    state: State<K, B>,
    received: Seq<(K, B)>,
    fed: Seq<(usize, B)>,
) -> bool {
    let taken = received.len() - state.parts.len();
    &&& taken == fed.len() + (if state.waiting is Some {
        1int
    } else {
        0int
    })
    &&& state.parts =~= received.skip(taken)
    &&& state.waiting matches Some(part) ==> received[fed.len() as int].1 == part
        && state.keys.len() > 0 && state.keys.last().eq_spec(&received[fed.len() as int].0)
    &&& forall|j: int|
        #![trigger fed[j]]
        0 <= j < fed.len() ==> {
            &&& fed[j].1 == received[j].1
            &&& fed[j].0 < state.keys.len()
            &&& state.keys[fed[j].0 as int].eq_spec(&received[j].0)
        }
    &&& state.keys == key_order(part_keys(received.take(taken)))
}

/// Routing the next part keeps the tie.
proof fn lemma_route_keeps<K: PartialEq, B, E>(
    state: State<K, B>,
    received: Seq<(K, B)>,
    fed: Seq<(usize, B)>,
)
    requires
        is_key::<K>(),
        routed(state, received, fed),
        state.waiting is None,
        state.keys.len() < usize::MAX,
    ensures
        ({
            let (after, action) = route::<K, B, E>(state);
            routed(
                after,
                received,
                match action {
                    Action::Feed(p, part) => fed.push((p, part)),
                    _ => fed,
                },
            )
        }),
{
    if state.parts.len() > 0 {
        let (key, part) = state.parts[0];
        let taken = received.len() - state.parts.len();
        lemma_index_of(state.keys, key);
        let keys = part_keys(received.take(taken));
        assert(received[taken] == state.parts[0]);
        assert(part_keys(received.take(taken + 1)) =~= keys.push(Some(key)));
        lemma_key_order_push(keys, key);
        assert(state.parts.skip(1) =~= received.skip(taken + 1));
    }
}

/// Every state of a grouped run is tied to the parts it has received and fed.
pub(crate) proof fn lemma_routed<K: PartialEq, B, E>(events: Seq<Event<K, B, E>>)
    requires
        is_key::<K>(),
        possible(true, events),
    ensures
        routed(state_after(true, events), parts_received(events), fed_after(true, events)),
    decreases events.len(),
{
    if events.len() == 0 {
        assert(part_keys(parts_received(events).take(0)) =~= Seq::<Option<K>>::empty());
    } else {
        let before = events.drop_last();
        let state = state_after(true, before);
        let received = parts_received(before);
        let fed = fed_after(true, before);
        lemma_run(true, before);
        lemma_routed(before);
        match events.last() {
            Event::Parts(parts) => {
                let now = State { parts: parts@, ..state };
                let all = received + parts@;
                assert(all.take(received.len() as int) =~= received);
                assert(received.take(received.len() as int) =~= received);
                assert(all.skip(received.len() as int) =~= parts@);
                assert(routed(now, all, fed));
                lemma_route_keeps::<K, B, E>(now, all, fed);
            },
            Event::Code(code) => {
                if state.phase is Feed && code == 0 {
                    lemma_route_keeps::<K, B, E>(state, received, fed);
                }
            },
            _ => {},
        }
    }
}

/// A grouped run feeds each part to the processor of its key: two parts go to the same
/// processor exactly where their keys are equal, the processors are numbered by the
/// first appearance of their keys, the parts are fed in the order received, and none is
/// left when the processors are executed.
pub proof fn lemma_routing<K: PartialEq, B, E>(events: Seq<Event<K, B, E>>)
    requires
        is_key::<K>(),
        possible(true, events),
    ensures
        ({
            let state = state_after(true, events);
            let received = parts_received(events);
            let fed = fed_after(true, events);
            &&& fed.len() <= received.len()
            &&& forall|j: int|
                #![trigger fed[j]]
                0 <= j < fed.len() ==> fed[j].1 == received[j].1 && fed[j].0 < state.keys.len()
                    && state.keys[fed[j].0 as int].eq_spec(&received[j].0)
            &&& forall|i: int, j: int|
                #![trigger fed[i], fed[j]]
                0 <= i < fed.len() && 0 <= j < fed.len() ==> (fed[i].0 == fed[j].0
                    <==> received[i].0.eq_spec(&received[j].0))
            &&& (state.phase is Execute || state.phase is Fetch || state.phase is Emit
                || state.phase is Finish || state.phase is Done) ==> fed.len() == received.len()
                && state.keys == key_order(part_keys(received))
        }),
{
    let state = state_after(true, events);
    let received = parts_received(events);
    let fed = fed_after(true, events);
    lemma_run(true, events);
    lemma_routed(events);
    let taken = received.len() - state.parts.len();
    lemma_key_order(part_keys(received.take(taken)));
    assert forall|i: int, j: int|
        #![trigger fed[i], fed[j]]
        0 <= i < fed.len() && 0 <= j < fed.len() implies (fed[i].0 == fed[j].0
        <==> received[i].0.eq_spec(&received[j].0)) by {
        let a = state.keys[fed[i].0 as int];
        let b = state.keys[fed[j].0 as int];
        let x = received[i].0;
        let y = received[j].0;
        assert(a.eq_spec(&x));
        assert(b.eq_spec(&y));
        if x.eq_spec(&y) {
            assert(a.eq_spec(&y));
            assert(y.eq_spec(&b));
            assert(a.eq_spec(&b));
        }
        if fed[i].0 == fed[j].0 {
            assert(x.eq_spec(&a));
            assert(x.eq_spec(&y));
        }
    }
    assert(received.take(received.len() as int) =~= received);
}

/// Over all partitions of an input that is partitioned by key, parts with the same key go
/// to the same processor, and parts with different keys to different ones. `runs` are
/// the events of each partition's run.
pub proof fn lemma_distribute_by<K: PartialEq, B, E>(
    partition_of: spec_fn(K) -> int,
    runs: spec_fn(int) -> Seq<Event<K, B, E>>,
    p: int,
    i: int,
    q: int,
    j: int,
)
    requires
        is_key::<K>(),
        forall|a: K, b: K| #[trigger] a.eq_spec(&b) ==> partition_of(a) == partition_of(b),
        possible(true, runs(p)),
        possible(true, runs(q)),
        forall|n: int|
            0 <= n < parts_received(runs(p)).len() ==> partition_of(
                (#[trigger] parts_received(runs(p))[n]).0,
            ) == p,
        forall|n: int|
            0 <= n < parts_received(runs(q)).len() ==> partition_of(
                (#[trigger] parts_received(runs(q))[n]).0,
            ) == q,
        0 <= i < fed_after(true, runs(p)).len(),
        0 <= j < fed_after(true, runs(q)).len(),
    ensures
        p == q && fed_after(true, runs(p))[i].0 == fed_after(true, runs(q))[j].0
            <==> parts_received(runs(p))[i].0.eq_spec(&parts_received(runs(q))[j].0),
{
    lemma_routing(runs(p));
    lemma_routing(runs(q));
    let a = parts_received(runs(p))[i].0;
    let b = parts_received(runs(q))[j].0;
    assert(partition_of(a) == p);
    assert(partition_of(b) == q);
}

/// A run with a single processor feeds it every batch, in the order received.
pub proof fn lemma_single_feeds<K: PartialEq, B, E>(events: Seq<Event<K, B, E>>)
    requires
        is_key::<K>(),
        possible(false, events),
    ensures
        fed_after(false, events) == batches_received(events).map_values(|batch: B| (0usize, batch)),
    decreases events.len(),
{
    if events.len() > 0 {
        let before = events.drop_last();
        lemma_run(false, before);
        lemma_single_feeds(before);
        if let Event::Whole(batch) = events.last() {
            assert(batches_received(before).push(batch).map_values(|batch: B| (0usize, batch))
                =~= batches_received(before).map_values(|batch: B| (0usize, batch)).push(
                (0usize, batch),
            ));
        }
    } else {
        assert(fed_after(false, events) =~= batches_received(events).map_values(
            |batch: B| (0usize, batch),
        ));
    }
}

/// `event` says that the step failed: a step outside of the library failed, a function
/// is missing, a fetch returned a negative code, or another function a code other than
/// zero.
pub open spec fn is_failure<K, B, E>(phase: Phase, event: Event<K, B, E>) -> bool {
    match event {
        Event::Failed(_) | Event::Missing(_) => true,
        Event::Code(code) => if phase is Fetch {
            code < 0
        } else {
            code != 0
        },
        _ => false,
    }
}

/// A run stops early at the first step that fails and at no other, and asks for
/// nothing after it.
pub proof fn lemma_stops<K: PartialEq, B, E>(grouped: bool, events: Seq<Event<K, B, E>>)
    requires
        is_key::<K>(),
        possible(grouped, events),
        events.len() > 0,
    ensures
        state_after(grouped, events).phase is Failed <==> is_failure(
            state_after(grouped, events.drop_last()).phase,
            events.last(),
        ),
        state_after(grouped, events).phase is Failed ==> action_after(grouped, events) is Fail
            && forall|event: Event<K, B, E>| !possible(grouped, #[trigger] events.push(event)),
{
    let before = events.drop_last();
    let state = state_after(grouped, before);
    lemma_run(grouped, before);
    lemma_run(grouped, events);
    if state_after(grouped, events).phase is Failed {
        assert forall|event: Event<K, B, E>| !possible(grouped, #[trigger] events.push(event)) by {
            assert(events.push(event).drop_last() =~= events);
        }
    }
}

} // verus!
