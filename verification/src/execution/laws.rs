//! What a run of a partition does with its input, its processors and its failures.
use vstd::prelude::*;

use crate::error::{ErrorKind, PlanError};
use crate::execution::lifecycle::{
    code_error, missing_error, symbol_name, Action, Event, Failure, Lifecycle, Phase, Stage, State,
};
use crate::execution::protocol::{
    action_after, batches_received, fed_after, lemma_protocol, lemma_routed, lemma_routing,
    lemma_run, lemma_single_feeds, part_keys, parts_received, possible, progress_after, state_after,
};
use crate::grouping::{key_order, lemma_key_order};
use crate::keys::{is_key, lemma_index_of};
use crate::text::{lemma_signed_reads_back, read_signed, signed_decimal};

verus! {

/// No processor is executed, fetched from or finished, and no run is complete, before the
/// input has ended.
pub proof fn lemma_input_read_to_end<K: PartialEq, B, E>(
    grouped: bool,
    events: Seq<Event<K, B, E>>,
)
    requires
        is_key::<K>(),
        possible(grouped, events),
        match action_after(grouped, events) {
            Action::Execute(_)
            | Action::Fetch(_)
            | Action::Emit(_)
            | Action::Finish(_)
            | Action::Done => true,
            Action::Lookup(stage) => !grouped && (stage is Execute || stage is Fetch
                || stage is Finish),
            _ => false,
        },
    ensures
        exists|i: int| 0 <= i < events.len() && #[trigger] events[i] is EndOfInput,
    decreases events.len(),
{
    if events.len() > 0 {
        let before = events.drop_last();
        lemma_run(grouped, before);
        lemma_run(grouped, events);
        if events.last() is EndOfInput {
            assert(events[events.len() - 1] is EndOfInput);
        } else {
            let state = state_after(grouped, before);
            if state.parts.len() > 0 {
                lemma_index_of(state.keys, state.parts[0].0);
            }
            if let Event::Parts(parts) = events.last() {
                if parts@.len() > 0 {
                    lemma_index_of(state.keys, parts@[0].0);
                }
            }
            lemma_input_read_to_end(grouped, before);
            let i = choose|i: int| 0 <= i < before.len() && #[trigger] before[i] is EndOfInput;
            assert(events[i] is EndOfInput);
        }
    }
}

/// After a part was fed, the next one is fed, to a processor that is initialised first where
/// it is new; once every part received is fed, the next batch is read.
pub proof fn lemma_reads_on<K: PartialEq, B, E>(events: Seq<Event<K, B, E>>)
    requires
        is_key::<K>(),
        possible(true, events),
        events.len() > 0,
        events.last() == Event::<K, B, E>::Code(0),
        action_after(true, events.drop_last()) is Feed,
    ensures
        fed_after(true, events.drop_last()).len() == parts_received(events).len()
            ==> action_after(true, events) is NextBatch,
        fed_after(true, events.drop_last()).len() < parts_received(events).len() ==> {
            let next = parts_received(events)[fed_after(true, events.drop_last()).len() as int];
            match action_after(true, events) {
                Action::Feed(_, part) => part == next.1,
                Action::Init(_) => true,
                _ => false,
            }
        },
{
    let before = events.drop_last();
    let state = state_after(true, before);
    lemma_run(true, before);
    lemma_run(true, events);
    lemma_routing(before);
    lemma_routing(events);
    lemma_routed(before);
    if state.parts.len() > 0 {
        lemma_index_of(state.keys, state.parts[0].0);
    }
}

/// After a batch was split, its first part is fed, to a processor that is initialised first
/// where it is new; a batch without parts is followed by the next one. A processor that was
/// initialised is fed the part that it was initialised for.
pub proof fn lemma_parts_fed<K: PartialEq, B, E>(events: Seq<Event<K, B, E>>)
    requires
        is_key::<K>(),
        possible(true, events),
        events.len() > 0,
    ensures
        events.last() matches Event::Parts(parts) ==> match action_after(true, events) {
            Action::Feed(_, part) => parts@.len() > 0 && part == parts@[0].1,
            Action::Init(_) => parts@.len() > 0,
            Action::NextBatch => parts@.len() == 0,
            _ => false,
        },
        events.last() is Ready ==> {
            let n = fed_after(true, events.drop_last()).len();
            action_after(true, events) matches Action::Feed(p, part) && action_after(
                true,
                events.drop_last(),
            ) == Action::<B, E>::Init(p) && n < parts_received(events).len() && part
                == parts_received(events)[n as int].1
        },
{
    let before = events.drop_last();
    let state = state_after(true, before);
    lemma_run(true, before);
    lemma_run(true, events);
    lemma_routed(before);
    if let Event::Parts(parts) = events.last() {
        if parts@.len() > 0 {
            lemma_index_of(state.keys, parts@[0].0);
        }
    }
}

/// A run with a single processor feeds it each batch as soon as it is read, and reads the next
/// batch as soon as it is fed.
pub proof fn lemma_batches_fed<K: PartialEq, B, E>(events: Seq<Event<K, B, E>>)
    requires
        is_key::<K>(),
        possible(false, events),
        events.len() > 0,
    ensures
        events.last() matches Event::Whole(batch) ==> action_after(false, events) == Action::<
            B,
            E,
        >::Feed(0, batch),
        action_after(false, events.drop_last()) is Feed && events.last() == Event::<K, B, E>::Code(
            0,
        ) ==> action_after(false, events) is NextBatch,
{
    lemma_run(false, events.drop_last());
    lemma_run(false, events);
}

/// The end of the input leads to the execution of the first processor; a grouped run without a
/// part is complete.
pub proof fn lemma_end_of_input<K: PartialEq, B, E>(grouped: bool, events: Seq<Event<K, B, E>>)
    requires
        is_key::<K>(),
        possible(grouped, events),
        events.len() > 0,
        events.last() is EndOfInput,
    ensures
        !grouped ==> action_after(grouped, events) == Action::<B, E>::Lookup(Stage::Execute),
        grouped && parts_received(events).len() > 0 ==> action_after(grouped, events) == Action::<
            B,
            E,
        >::Execute(0),
        grouped && parts_received(events).len() == 0 ==> action_after(grouped, events) is Done,
{
    let before = events.drop_last();
    lemma_run(grouped, before);
    lemma_run(grouped, events);
    if grouped {
        lemma_routing(events);
        lemma_routing(before);
        lemma_routed(before);
        let received = parts_received(before);
        assert(received.take(received.len() as int) =~= received);
        lemma_key_order(part_keys(received));
        if received.len() > 0 {
            assert(part_keys(received)[0] is Some);
        }
    }
}

/// What is looked up in a run, in its order.
pub open spec fn looked_up<K: PartialEq, B, E>(
    grouped: bool,
    events: Seq<Event<K, B, E>>,
) -> Seq<Stage>
    decreases events.len(),
{
    if events.len() == 0 {
        seq![Stage::Init]
    } else {
        match action_after(grouped, events) {
            Action::Lookup(stage) => looked_up(grouped, events.drop_last()).push(stage),
            _ => looked_up(grouped, events.drop_last()),
        }
    }
}

/// The function that an action calls.
pub open spec fn called<B, E>(action: Action<B, E>) -> Option<(Stage, usize)> {
    match action {
        Action::Init(p) => Some((Stage::Init, p)),
        Action::Feed(p, _) => Some((Stage::Feed, p)),
        Action::Execute(p) => Some((Stage::Execute, p)),
        Action::Fetch(p) => Some((Stage::Fetch, p)),
        Action::Finish(p) => Some((Stage::Finish, p)),
        _ => None,
    }
}

/// The five functions, in the order in which they are first called.
spec fn five_stages() -> Seq<Stage> {
    seq![Stage::Init, Stage::Feed, Stage::Execute, Stage::Fetch, Stage::Finish]
}

/// The number of functions looked up in `state`.
spec fn lookups_in<K, B>(state: State<K, B>) -> int {
    match state.phase {
        Phase::Lookup(Stage::Init) => 1,
        Phase::Lookup(Stage::Feed) => 2,
        Phase::Lookup(Stage::Execute) => 3,
        Phase::Lookup(Stage::Fetch) => 4,
        Phase::Lookup(Stage::Finish) => 5,
        Phase::Failed => 0,
        _ => if state.grouped {
            5
        } else {
            match state.phase {
                Phase::Encode | Phase::Init(_) => 1,
                Phase::Input | Phase::Feed(_) => 2,
                Phase::Execute(_) => 3,
                Phase::Fetch(_) | Phase::Emit(_) => 4,
                _ => 5,
            }
        },
    }
}

/// What is looked up is the start of the list of the five functions.
proof fn lemma_lookups<K: PartialEq, B, E>(grouped: bool, events: Seq<Event<K, B, E>>)
    requires
        is_key::<K>(),
        possible(grouped, events),
    ensures
        1 <= looked_up(grouped, events).len() <= 5,
        looked_up(grouped, events) == five_stages().take(looked_up(grouped, events).len() as int),
        !(state_after(grouped, events).phase is Failed) ==> looked_up(grouped, events).len()
            == lookups_in(state_after(grouped, events)),
    decreases events.len(),
{
    if events.len() == 0 {
        assert(looked_up(grouped, events) =~= five_stages().take(1));
    } else {
        let before = events.drop_last();
        let state = state_after(grouped, before);
        lemma_run(grouped, before);
        lemma_run(grouped, events);
        lemma_lookups(grouped, before);
        if state.parts.len() > 0 {
            lemma_index_of(state.keys, state.parts[0].0);
        }
        if let Event::Parts(parts) = events.last() {
            if parts@.len() > 0 {
                lemma_index_of(state.keys, parts@[0].0);
            }
        }
        let n = looked_up(grouped, before).len() as int;
        if action_after(grouped, events) is Lookup {
            assert(looked_up(grouped, events) =~= five_stages().take(n + 1));
        }
    }
}

/// The functions are looked up in the order `init`, `feed`, `execute`, `fetch`, `finish`, each
/// of them once; none is called before it was found; and a complete run has found all five. A
/// grouped run finds all five before it asks for anything else.
pub proof fn lemma_found_before_called<K: PartialEq, B, E>(
    grouped: bool,
    events: Seq<Event<K, B, E>>,
)
    requires
        is_key::<K>(),
        possible(grouped, events),
    ensures
        looked_up(grouped, events).is_prefix_of(
            seq![Stage::Init, Stage::Feed, Stage::Execute, Stage::Fetch, Stage::Finish],
        ),
        called(action_after(grouped, events)) matches Some((stage, _)) ==> looked_up(
            grouped,
            events,
        ).contains(stage),
        action_after(grouped, events) is Done ==> looked_up(grouped, events).len() == 5,
        grouped && !(action_after(grouped, events) is Lookup) && !(action_after(
            grouped,
            events,
        ) is Fail) ==> looked_up(grouped, events).len() == 5,
{
    lemma_run(grouped, events);
    lemma_lookups(grouped, events);
    let found = looked_up(grouped, events);
    assert(found =~= five_stages().subrange(0, found.len() as int));
    if let Some((stage, _)) = called(action_after(grouped, events)) {
        let i: int = match stage {
            Stage::Init => 0,
            Stage::Feed => 1,
            Stage::Execute => 2,
            Stage::Fetch => 3,
            Stage::Finish => 4,
        };
        assert(found[i] == stage);
    }
}

/// The processors for which the function of a stage is called, in the order of the calls.
pub open spec fn calls_of<K: PartialEq, B, E>(
    grouped: bool,
    events: Seq<Event<K, B, E>>,
    stage: Stage,
) -> Seq<usize>
    decreases events.len(),
{
    if events.len() == 0 {
        Seq::empty()
    } else {
        let before = calls_of(grouped, events.drop_last(), stage);
        match called(action_after(grouped, events)) {
            Some((s, p)) => if s == stage {
                before.push(p)
            } else {
                before
            },
            None => before,
        }
    }
}

/// The number of processors that a stage was called for in `state`.
spec fn calls_in<K, B>(state: State<K, B>, stage: Stage) -> int {
    let n: int = if state.grouped {
        state.keys.len() as int
    } else {
        1
    };
    match stage {
        Stage::Init => match state.phase {
            Phase::Lookup(Stage::Init) | Phase::Encode => 0,
            Phase::Lookup(_) => if state.grouped {
                0
            } else {
                1
            },
            _ => n,
        },
        Stage::Execute => match state.phase {
            Phase::Execute(p) => p + 1,
            Phase::Fetch(_) | Phase::Emit(_) | Phase::Finish(_) | Phase::Done => n,
            Phase::Lookup(Stage::Fetch) | Phase::Lookup(Stage::Finish) => if state.grouped {
                0
            } else {
                1
            },
            _ => 0,
        },
        Stage::Finish => match state.phase {
            Phase::Finish(p) => p + 1,
            Phase::Done => n,
            _ => 0,
        },
        _ => 0,
    }
}

/// The first, the second, and so on.
pub open spec fn in_turn(processors: Seq<usize>) -> bool {
    forall|i: int| 0 <= i < processors.len() ==> #[trigger] processors[i] == i
}

/// The calls of a stage go to the processors in turn.
proof fn lemma_calls<K: PartialEq, B, E>(
    grouped: bool,
    events: Seq<Event<K, B, E>>,
    stage: Stage,
)
    requires
        is_key::<K>(),
        possible(grouped, events),
        stage is Init || stage is Execute || stage is Finish,
    ensures
        in_turn(calls_of(grouped, events, stage)),
        !(state_after(grouped, events).phase is Failed) ==> calls_of(grouped, events, stage).len()
            == calls_in(state_after(grouped, events), stage),
    decreases events.len(),
{
    if events.len() > 0 {
        let before = events.drop_last();
        let state = state_after(grouped, before);
        lemma_run(grouped, before);
        lemma_run(grouped, events);
        lemma_calls(grouped, before, stage);
        if state.parts.len() > 0 {
            lemma_index_of(state.keys, state.parts[0].0);
        }
        if let Event::Parts(parts) = events.last() {
            if parts@.len() > 0 {
                lemma_index_of(state.keys, parts@[0].0);
            }
        }
    }
}

/// Each processor is initialised once, executed once and finished once, in turn: a run that is
/// complete has initialised, executed and finished one processor for each key that it was
/// handed, or the single one.
pub proof fn lemma_complete_run<K: PartialEq, B, E>(grouped: bool, events: Seq<Event<K, B, E>>)
    requires
        is_key::<K>(),
        possible(grouped, events),
    ensures
        in_turn(calls_of(grouped, events, Stage::Init)),
        in_turn(calls_of(grouped, events, Stage::Execute)),
        in_turn(calls_of(grouped, events, Stage::Finish)),
        action_after(grouped, events) is Done ==> {
            let n = if grouped {
                key_order(part_keys(parts_received(events))).len()
            } else {
                1
            };
            &&& calls_of(grouped, events, Stage::Init).len() == n
            &&& calls_of(grouped, events, Stage::Execute).len() == n
            &&& calls_of(grouped, events, Stage::Finish).len() == n
        },
{
    lemma_run(grouped, events);
    lemma_calls(grouped, events, Stage::Init);
    lemma_calls(grouped, events, Stage::Execute);
    lemma_calls(grouped, events, Stage::Finish);
    if grouped {
        lemma_routing(events);
    }
}

/// A run that is complete has fed everything that it was handed, and finished every processor
/// that it fed.
pub proof fn lemma_nothing_left<K: PartialEq, B, E>(grouped: bool, events: Seq<Event<K, B, E>>)
    requires
        is_key::<K>(),
        possible(grouped, events),
        action_after(grouped, events) is Done,
    ensures
        fed_after(grouped, events).len() == if grouped {
            parts_received(events).len()
        } else {
            batches_received(events).len()
        },
        forall|j: int|
            0 <= j < fed_after(grouped, events).len() ==> progress_after(
                grouped,
                events,
                (#[trigger] fed_after(grouped, events)[j]).0,
            ) is Finished,
{
    lemma_run(grouped, events);
    let fed = fed_after(grouped, events);
    if grouped {
        lemma_routing(events);
    } else {
        lemma_single_feeds(events);
    }
    assert forall|j: int| 0 <= j < fed.len() implies progress_after(
        grouped,
        events,
        (#[trigger] fed[j]).0,
    ) is Finished by {
        lemma_protocol(grouped, events, fed[j].0);
    }
}

/// What a fetch answers decides what comes next: a batch is sent on and the processor fetched
/// from again; the end of its output leads to the next processor, and after the last one to the
/// first that is finished.
pub proof fn lemma_fetches<K: PartialEq, B, E>(
    grouped: bool,
    events: Seq<Event<K, B, E>>,
    p: usize,
)
    requires
        is_key::<K>(),
        possible(grouped, events),
        events.len() > 0,
    ensures
        action_after(grouped, events.drop_last()) == Action::<B, E>::Fetch(p) ==> (
        events.last() matches Event::Code(code) ==> {
            &&& code >= 0 && code != 1 ==> action_after(grouped, events) == Action::<B, E>::Emit(p)
            &&& code == 1 ==> match action_after(grouped, events) {
                Action::Fetch(q) => grouped && q == p + 1,
                Action::Finish(q) => grouped && q == 0,
                Action::Lookup(stage) => !grouped && stage is Finish,
                _ => false,
            }
        }),
        action_after(grouped, events.drop_last()) == Action::<B, E>::Emit(p)
            && events.last() is Sent ==> action_after(grouped, events) == Action::<B, E>::Fetch(p),
{
    lemma_run(grouped, events.drop_last());
    lemma_run(grouped, events);
}

/// A run stops exactly where a step fails: a step outside of the library, a function that is
/// missing, a fetch that returns a negative code, or another function that returns a code other
/// than zero. The failure says which step it was, and how it failed.
pub proof fn lemma_failures<K: PartialEq, B, E>(grouped: bool, events: Seq<Event<K, B, E>>)
    requires
        is_key::<K>(),
        possible(grouped, events),
        events.len() > 0,
    ensures
        ({
            let asked = action_after(grouped, events.drop_last());
            let action = action_after(grouped, events);
            match events.last() {
                Event::Failed(error) => action == Action::<B, E>::Fail(Failure::Outside(error)),
                Event::Missing(detail) => asked matches Action::Lookup(stage) && action == Action::<
                    B,
                    E,
                >::Fail(Failure::MissingSymbol { stage, detail }),
                Event::Code(code) => called(asked) matches Some((stage, processor)) && if code < 0
                    || (code > 0 && !(stage is Fetch)) {
                    action == Action::<B, E>::Fail(Failure::Code { stage, code, processor })
                } else {
                    !(action is Fail)
                },
                _ => !(action is Fail),
            }
        }),
{
    let before = events.drop_last();
    let state = state_after(grouped, before);
    lemma_run(grouped, before);
    lemma_run(grouped, events);
    if state.parts.len() > 0 {
        lemma_index_of(state.keys, state.parts[0].0);
    }
    if let Event::Parts(parts) = events.last() {
        if parts@.len() > 0 {
            lemma_index_of(state.keys, parts@[0].0);
        }
    }
}

/// Every outcome of an action can be handed back, and nothing else: a run that is complete or
/// stopped takes no more.
pub proof fn lemma_answers<K: PartialEq, B, E>(
    grouped: bool,
    events: Seq<Event<K, B, E>>,
    event: Event<K, B, E>,
)
    requires
        is_key::<K>(),
        possible(grouped, events),
        state_after(grouped, events).keys.len() < usize::MAX,
    ensures
        possible(grouped, events.push(event)) <==> match action_after(grouped, events) {
            Action::Lookup(_) => event is Found || event is Missing || event is Failed,
            Action::EncodeSchema => event is Encoded || event is Failed,
            Action::Init(_) => event is Ready || event is Failed,
            Action::NextBatch => event is EndOfInput || event is Failed || (if grouped {
                event is Parts
            } else {
                event is Whole
            }),
            Action::Feed(_, _)
            | Action::Execute(_)
            | Action::Fetch(_)
            | Action::Finish(_) => event is Code || event is Failed,
            Action::Emit(_) => event is Sent || event is Failed,
            Action::Done | Action::Fail(_) => false,
        },
{
    lemma_run(grouped, events);
    assert(events.push(event).drop_last() =~= events);
}

/// The schema of the input is encoded before a processor is initialised.
pub proof fn lemma_encoded_first<K: PartialEq, B, E>(grouped: bool, events: Seq<Event<K, B, E>>)
    requires
        is_key::<K>(),
        possible(grouped, events),
        called(action_after(grouped, events)) is Some,
    ensures
        exists|i: int| 0 <= i < events.len() && #[trigger] events[i] is Encoded,
{
    lemma_run(grouped, events);
    lemma_encoded(grouped, events);
}

/// A run that is past the encoding of its schema has encoded it.
proof fn lemma_encoded<K: PartialEq, B, E>(grouped: bool, events: Seq<Event<K, B, E>>)
    requires
        is_key::<K>(),
        possible(grouped, events),
        match state_after(grouped, events).phase {
            Phase::Encode | Phase::Failed => false,
            Phase::Lookup(stage) => !grouped && !(stage is Init),
            _ => true,
        },
    ensures
        exists|i: int| 0 <= i < events.len() && #[trigger] events[i] is Encoded,
    decreases events.len(),
{
    if events.len() > 0 {
        let before = events.drop_last();
        lemma_run(grouped, before);
        lemma_run(grouped, events);
        if events.last() is Encoded {
            assert(events[events.len() - 1] is Encoded);
        } else {
            lemma_encoded(grouped, before);
            let i = choose|i: int| 0 <= i < before.len() && #[trigger] before[i] is Encoded;
            assert(events[i] is Encoded);
        }
    }
}

/// A library exports the five functions under the name of the processor, followed by `_init`,
/// `_feed`, `_execute`, `_fetch` and `_finish`.
pub proof fn lemma_symbol_names(fn_name: &str, stage: Stage, name: String)
    requires
        call_ensures(symbol_name, (fn_name, stage), name),
    ensures
        stage is Init ==> name@ == fn_name@ + "_init"@,
        stage is Feed ==> name@ == fn_name@ + "_feed"@,
        stage is Execute ==> name@ == fn_name@ + "_execute"@,
        stage is Fetch ==> name@ == fn_name@ + "_fetch"@,
        stage is Finish ==> name@ == fn_name@ + "_finish"@,
{
}

/// A function that is missing is reported under the name that was looked up, and with what the
/// lookup said.
pub proof fn lemma_missing_says(
    fn_name: &str,
    stage: Stage,
    detail: &str,
    name: String,
    error: PlanError,
)
    requires
        call_ensures(symbol_name, (fn_name, stage), name),
        call_ensures(missing_error, (fn_name, stage, detail), error),
    ensures
        error.kind == ErrorKind::Internal,
        error.message@ == "symbol "@ + name@ + " not found: "@ + detail@,
{
}

/// A code is reported under the name of the function that returned it, as a decimal number that
/// reads as the code, and with the key of the processor where it has one.
pub proof fn lemma_code_says(
    fn_name: &str,
    stage: Stage,
    code: i32,
    key: Option<&str>,
    name: String,
    error: PlanError,
)
    requires
        call_ensures(symbol_name, (fn_name, stage), name),
        call_ensures(code_error, (fn_name, stage, code, key), error),
    ensures
        error.kind == ErrorKind::Internal,
        exists|number: Seq<char>|
            {
                &&& #[trigger] read_signed(number) == code
                &&& error.message@ == name@ + " returned error code "@ + number + match key {
                    Some(key) => " for key "@ + key@,
                    None => Seq::empty(),
                }
            },
{
    let number = signed_decimal(code as int);
    lemma_signed_reads_back(code as int);
    let message = name@ + " returned error code "@ + number;
    if let Some(key) = key {
        assert(message + " for key "@ + key@ =~= message + (" for key "@ + key@));
    } else {
        assert(message =~= message + Seq::<char>::empty());
    }
}

/// A run follows its events: it starts where a run without events stands, and each step leads
/// from a run after some events to the run after one more, and asks for what that run asks for.
pub proof fn lemma_run_follows<K: PartialEq, B, E>(
    grouped: bool,
    started: (Lifecycle<K, B>, Action<B, E>),
    events: Seq<Event<K, B, E>>,
    event: Event<K, B, E>,
    action: Action<B, E>,
)
    ensures
        call_ensures(Lifecycle::<K, B>::new::<E>, (grouped,), started) ==> {
            &&& started.0@ == state_after(grouped, Seq::<Event<K, B, E>>::empty())
            &&& started.1 == action_after(grouped, Seq::<Event<K, B, E>>::empty())
            &&& started.1 == Action::<B, E>::Lookup(Stage::Init)
        },
        forall|run: &mut Lifecycle<K, B>|
            (*run)@ == state_after(grouped, events) && #[trigger] call_ensures(
                Lifecycle::<K, B>::step::<E>,
                (run, event),
                action,
            ) ==> {
                &&& (*final(run))@ == state_after(grouped, events.push(event))
                &&& action == action_after(grouped, events.push(event))
            },
{
    assert(events.push(event).drop_last() =~= events);
}

} // verus!
