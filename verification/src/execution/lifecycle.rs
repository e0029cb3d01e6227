//! The steps of a partition's run, decided one at a time.
//!
//! The surrounding program performs an action (a symbol lookup, a call into the
//! processor library, reading a batch, sending one) and hands back what came of it.
use vstd::prelude::*;

use crate::error::{ErrorKind, PlanError};
use crate::keys::{find_key, index_of, is_key, lemma_index_of};
use crate::text::{signed_decimal, signed_decimal_text, text_of};

verus! {

/// The five functions that a processor library exports under one name.
#[derive(Debug, Clone, Copy, PartialEq, Eq, Structural)]
pub enum Stage {
    Init,
    Feed,
    Execute,
    Fetch,
    Finish,
}

/// What a stage adds to the name of the processor.
pub open spec fn stage_suffix(stage: Stage) -> Seq<char> {
    match stage {
        Stage::Init => "_init"@,
        Stage::Feed => "_feed"@,
        Stage::Execute => "_execute"@,
        Stage::Fetch => "_fetch"@,
        Stage::Finish => "_finish"@,
    }
}

/// The name under which the library exports the function of `stage`.
pub fn symbol_name(fn_name: &str, stage: Stage) -> (name: String)
    ensures
        name@ == fn_name@ + stage_suffix(stage),
{
    match stage {
        Stage::Init => text_of(fn_name, "_init"),
        Stage::Feed => text_of(fn_name, "_feed"),
        Stage::Execute => text_of(fn_name, "_execute"),
        Stage::Fetch => text_of(fn_name, "_fetch"),
        Stage::Finish => text_of(fn_name, "_finish"),
    }
}

/// What a missing function of `stage` is reported as.
pub open spec fn missing_message(fn_name: Seq<char>, stage: Stage, detail: Seq<char>) -> Seq<char> {
    "symbol "@ + (fn_name + stage_suffix(stage)) + " not found: "@ + detail
}

/// The error for a function that the library does not export.
pub fn missing_error(fn_name: &str, stage: Stage, detail: &str) -> (error: PlanError)
    ensures
        error@ == (ErrorKind::Internal, missing_message(fn_name@, stage, detail@)),
{
    let mut message = text_of("symbol ", symbol_name(fn_name, stage).as_str());
    message.append(" not found: ");
    message.append(detail);
    PlanError { kind: ErrorKind::Internal, message }
}

/// What an error code of the function of `stage` is reported as; a grouped run names
/// the key of the processor.
pub open spec fn code_message(
    fn_name: Seq<char>,
    stage: Stage,
    code: i32,
    key: Option<Seq<char>>,
) -> Seq<char> {
    let message = fn_name + stage_suffix(stage) + " returned error code "@ + signed_decimal(
        code as int,
    );
    match key {
        Some(key) => message + " for key "@ + key,
        None => message,
    }
}

/// The error for a function of the library that returned an error code.
pub fn code_error(fn_name: &str, stage: Stage, code: i32, key: Option<&str>) -> (error: PlanError)
    ensures
        error@ == (
            ErrorKind::Internal,
            code_message(
                fn_name@,
                stage,
                code,
                match key {
                    Some(key) => Some(key@),
                    None => None,
                },
            ),
        ),
{
    let mut message = symbol_name(fn_name, stage);
    message.append(" returned error code ");
    message.append(signed_decimal_text(code).as_str());
    if let Some(key) = key {
        message.append(" for key ");
        message.append(key);
    }
    PlanError { kind: ErrorKind::Internal, message }
}

/// Why a run stopped early.
#[derive(Debug)]
pub enum Failure<E> {
    /// A step outside of the library failed.
    Outside(E),
    /// The processor library does not export the function of a stage.
    MissingSymbol { stage: Stage, detail: String },
    /// The function of a stage returned an error code for a processor.
    Code { stage: Stage, code: i32, processor: usize },
}

/// What the surrounding program does next. Processors are numbered from zero, in the
/// order in which they are initialised.
#[derive(Debug)]
pub enum Action<B, E> {
    /// Look up the function of a stage.
    Lookup(Stage),
    /// Encode the schema of the input.
    EncodeSchema,
    /// Call the `init` function; what it returns is the context of this processor.
    Init(usize),
    /// Read the next batch of the input.
    NextBatch,
    /// Call the `feed` function with a batch.
    Feed(usize, B),
    /// Call the `execute` function.
    Execute(usize),
    /// Call the `fetch` function.
    Fetch(usize),
    /// Send on the batch that the last fetch wrote.
    Emit(usize),
    /// Call the `finish` function.
    Finish(usize),
    /// The run is complete.
    Done,
    /// The run stopped.
    Fail(Failure<E>),
}

/// What came of an action.
#[derive(Debug)]
pub enum Event<K, B, E> {
    /// The function was found.
    Found,
    /// The function was not found.
    Missing(String),
    /// The schema was encoded.
    Encoded,
    /// The processor has its context.
    Ready,
    /// A batch was read; it goes to the single processor as it is.
    Whole(B),
    /// A batch was read and split by key.
    Parts(Vec<(K, B)>),
    /// The input is at its end.
    EndOfInput,
    /// A function of the library returned this code.
    Code(i32),
    /// The batch was sent on.
    Sent,
    /// The step failed.
    Failed(E),
}

/// The step that a run waits for.
#[derive(Debug, Clone, Copy, PartialEq, Eq, Structural)]
pub enum Phase {
    Lookup(Stage),
    Encode,
    Init(usize),
    Input,
    Feed(usize),
    Execute(usize),
    Fetch(usize),
    Emit(usize),
    Finish(usize),
    Done,
    Failed,
}

/// Where a run stands.
#[verifier::ext_equal]
pub struct State<K, B> {
    /// Rows are grouped by key, one processor per key.
    pub grouped: bool,
    pub phase: Phase,
    /// The keys of the processors.
    pub keys: Seq<K>,
    /// The part that the processor being initialised will be fed.
    pub waiting: Option<B>,
    /// The parts of the current batch that no processor has been fed yet.
    pub parts: Seq<(K, B)>,
}

/// The number of processors of a run that has read its input.
pub open spec fn processor_count<K, B>(state: State<K, B>) -> nat {
    if state.grouped {
        state.keys.len()
    } else {
        1
    }
}

/// The events that can answer the step that `state` waits for.
pub open spec fn expects<K, B, E>(state: State<K, B>, event: Event<K, B, E>) -> bool {
    match state.phase {
        Phase::Lookup(_) => event is Found || event is Missing || event is Failed,
        Phase::Encode => event is Encoded || event is Failed,
        Phase::Init(_) => event is Ready || event is Failed,
        Phase::Input => {
            ||| state.grouped && event is Parts
            ||| !state.grouped && event is Whole
            ||| event is EndOfInput
            ||| event is Failed
        },
        Phase::Feed(_) => event is Code || event is Failed,
        Phase::Execute(_) => event is Code || event is Failed,
        Phase::Fetch(_) => event is Code || event is Failed,
        Phase::Emit(_) => event is Sent || event is Failed,
        Phase::Finish(_) => event is Code || event is Failed,
        Phase::Done => false,
        Phase::Failed => false,
    }
}

/// A run at its start.
pub open spec fn initial<K, B>(grouped: bool) -> State<K, B> {
    State {
        grouped,
        phase: Phase::Lookup(Stage::Init),
        keys: Seq::empty(),
        waiting: None,
        parts: Seq::empty(),
    }
}

/// `state` waiting for another step.
pub open spec fn at<K, B>(state: State<K, B>, phase: Phase) -> State<K, B> {
    State { phase, ..state }
}

/// The next part goes to the processor of its key, which is initialised first where
/// the key is new; without a part the next batch is read.
pub open spec fn route<K: PartialEq, B, E>(state: State<K, B>) -> (State<K, B>, Action<B, E>) {
    if state.parts.len() == 0 {
        (at(state, Phase::Input), Action::NextBatch)
    } else {
        let (key, part) = state.parts[0];
        let parts = state.parts.skip(1);
        match index_of(state.keys, key) {
            Some(p) => (
                State { phase: Phase::Feed(p as usize), parts, ..state },
                Action::Feed(p as usize, part),
            ),
            None => {
                let p = state.keys.len() as usize;
                (
                    State {
                        phase: Phase::Init(p),
                        keys: state.keys.push(key),
                        waiting: Some(part),
                        parts,
                        ..state
                    },
                    Action::Init(p),
                )
            },
        }
    }
}

/// What follows on a function that was found. Grouped runs look up all five first;
/// others look up each where they first call it.
pub open spec fn after_lookup<K, B, E>(state: State<K, B>, stage: Stage) -> (
    State<K, B>,
    Action<B, E>,
) {
    if state.grouped {
        match stage {
            Stage::Init => (at(state, Phase::Lookup(Stage::Feed)), Action::Lookup(Stage::Feed)),
            Stage::Feed => (
                at(state, Phase::Lookup(Stage::Execute)),
                Action::Lookup(Stage::Execute),
            ),
            Stage::Execute => (at(state, Phase::Lookup(Stage::Fetch)), Action::Lookup(Stage::Fetch)),
            Stage::Fetch => (at(state, Phase::Lookup(Stage::Finish)), Action::Lookup(Stage::Finish)),
            Stage::Finish => (at(state, Phase::Encode), Action::EncodeSchema),
        }
    } else {
        match stage {
            Stage::Init => (at(state, Phase::Encode), Action::EncodeSchema),
            Stage::Feed => (at(state, Phase::Input), Action::NextBatch),
            Stage::Execute => (at(state, Phase::Execute(0)), Action::Execute(0)),
            Stage::Fetch => (at(state, Phase::Fetch(0)), Action::Fetch(0)),
            Stage::Finish => (at(state, Phase::Finish(0)), Action::Finish(0)),
        }
    }
}

/// The first step of a stage after the input: grouped runs start with processor zero,
/// others look the function up.
pub open spec fn enter<K, B, E>(state: State<K, B>, stage: Stage) -> (State<K, B>, Action<B, E>) {
    if !state.grouped {
        (at(state, Phase::Lookup(stage)), Action::Lookup(stage))
    } else if state.keys.len() == 0 {
        (at(state, Phase::Done), Action::Done)
    } else {
        match stage {
            Stage::Execute => (at(state, Phase::Execute(0)), Action::Execute(0)),
            Stage::Fetch => (at(state, Phase::Fetch(0)), Action::Fetch(0)),
            _ => (at(state, Phase::Finish(0)), Action::Finish(0)),
        }
    }
}

/// A run that stopped.
pub open spec fn fail<K, B, E>(state: State<K, B>, failure: Failure<E>) -> (
    State<K, B>,
    Action<B, E>,
) {
    (at(state, Phase::Failed), Action::Fail(failure))
}

/// What a code says of the stages that return zero on success.
pub open spec fn after_code<K: PartialEq, B, E>(state: State<K, B>, code: i32) -> (
    State<K, B>,
    Action<B, E>,
) {
    match state.phase {
        Phase::Feed(p) => if code != 0 {
            fail(state, Failure::Code { stage: Stage::Feed, code, processor: p })
        } else {
            route(state)
        },
        Phase::Execute(p) => if code != 0 {
            fail(state, Failure::Code { stage: Stage::Execute, code, processor: p })
        } else if p + 1 < processor_count(state) {
            (at(state, Phase::Execute((p + 1) as usize)), Action::Execute((p + 1) as usize))
        } else {
            enter(state, Stage::Fetch)
        },
        Phase::Fetch(p) => if code < 0 {
            fail(state, Failure::Code { stage: Stage::Fetch, code, processor: p })
        } else if code != 1 {
            (at(state, Phase::Emit(p)), Action::Emit(p))
        } else if p + 1 < processor_count(state) {
            (at(state, Phase::Fetch((p + 1) as usize)), Action::Fetch((p + 1) as usize))
        } else {
            enter(state, Stage::Finish)
        },
        Phase::Finish(p) => if code != 0 {
            fail(state, Failure::Code { stage: Stage::Finish, code, processor: p })
        } else if p + 1 < processor_count(state) {
            (at(state, Phase::Finish((p + 1) as usize)), Action::Finish((p + 1) as usize))
        } else {
            (at(state, Phase::Done), Action::Done)
        },
        _ => (state, Action::Done),
    }
}

/// The state and the action that follow on an event that `state` expects.
pub open spec fn next<K: PartialEq, B, E>(state: State<K, B>, event: Event<K, B, E>) -> (
    State<K, B>,
    Action<B, E>,
) {
    match event {
        Event::Failed(error) => fail(state, Failure::Outside(error)),
        Event::Missing(detail) => match state.phase {
            Phase::Lookup(stage) => fail(state, Failure::MissingSymbol { stage, detail }),
            _ => (state, Action::Done),
        },
        Event::Found => match state.phase {
            Phase::Lookup(stage) => after_lookup(state, stage),
            _ => (state, Action::Done),
        },
        Event::Encoded => if state.grouped {
            (at(state, Phase::Input), Action::NextBatch)
        } else {
            (at(state, Phase::Init(0)), Action::Init(0))
        },
        Event::Ready => match (state.phase, state.waiting) {
            (Phase::Init(p), Some(part)) => (
                State { phase: Phase::Feed(p), waiting: None, ..state },
                Action::Feed(p, part),
            ),
            _ => (at(state, Phase::Lookup(Stage::Feed)), Action::Lookup(Stage::Feed)),
        },
        Event::Whole(batch) => (at(state, Phase::Feed(0)), Action::Feed(0, batch)),
        Event::Parts(parts) => route(State { parts: parts@, ..state }),
        Event::EndOfInput => enter(state, Stage::Execute),
        Event::Code(code) => after_code(state, code),
        Event::Sent => match state.phase {
            Phase::Emit(p) => (at(state, Phase::Fetch(p)), Action::Fetch(p)),
            _ => (state, Action::Done),
        },
    }
}

/// A run over one partition.
pub struct Lifecycle<K, B> {
    grouped: bool,
    phase: Phase,
    keys: Vec<K>,
    waiting: Option<B>,
    parts: Vec<(K, B)>,
}

impl<K, B> View for Lifecycle<K, B> {
    type V = State<K, B>;

    closed spec fn view(&self) -> State<K, B> {
        State {
            grouped: self.grouped,
            phase: self.phase,
            keys: self.keys@,
            waiting: self.waiting,
            parts: self.parts@,
        }
    }
}

/// What holds of a run at every step.
pub open spec fn state_wf<K, B>(state: State<K, B>) -> bool {
    &&& state.keys.len() <= usize::MAX
    &&& state.grouped && !(state.phase is Failed) ==> (state.waiting is Some <==> state.phase is Init)
    &&& !state.grouped ==> state.waiting is None && state.keys.len() == 0 && state.parts.len() == 0
    &&& match state.phase {
        Phase::Lookup(_) | Phase::Encode => state.grouped ==> state.keys.len() == 0
            && state.parts.len() == 0,
        Phase::Init(p) => state.grouped && p == state.keys.len() - 1 || !state.grouped && p == 0,
        Phase::Input => state.parts.len() == 0,
        Phase::Feed(p) => p < processor_count(state),
        Phase::Execute(p) | Phase::Fetch(p) | Phase::Emit(p) | Phase::Finish(p) => p
            < processor_count(state) && state.parts.len() == 0,
        Phase::Done => state.parts.len() == 0,
        Phase::Failed => true,
    }
}

impl<K: PartialEq, B> Lifecycle<K, B> {
    /// Every step keeps this.
    pub open spec fn wf(&self) -> bool {
        state_wf(self@)
    }

    /// A run and its first action.
    pub fn new<E>(grouped: bool) -> (run: (Lifecycle<K, B>, Action<B, E>))
        ensures
            run.0@ == initial::<K, B>(grouped),
            run.0.wf(),
            run.1 == Action::<B, E>::Lookup(Stage::Init),
    {
        let run = Lifecycle {
            grouped,
            phase: Phase::Lookup(Stage::Init),
            keys: Vec::new(),
            waiting: None,
            parts: Vec::new(),
        };
        (run, Action::Lookup(Stage::Init))
    }

    /// Goes on with the next part, or reads the next batch.
    fn route_next<E>(&mut self) -> (action: Action<B, E>)
        requires
            is_key::<K>(),
            old(self)@.grouped,
            old(self)@.waiting is None,
            old(self)@.keys.len() < usize::MAX,
        ensures
            (final(self)@, action) == route::<K, B, E>(old(self)@),
            final(self).wf(),
    {
        if self.parts.len() == 0 {
            self.phase = Phase::Input;
            Action::NextBatch
        } else {
            let ghost before = self@;
            proof {
                lemma_index_of(before.keys, before.parts[0].0);
            }
            let (key, part) = self.parts.remove(0);
            assert(self.parts@ =~= before.parts.skip(1));
            match find_key(&self.keys, &key) {
                Some(p) => {
                    self.phase = Phase::Feed(p);
                    Action::Feed(p, part)
                },
                None => {
                    let p: usize = self.keys.len();
                    self.keys.push(key);
                    self.waiting = Some(part);
                    self.phase = Phase::Init(p);
                    Action::Init(p)
                },
            }
        }
    }

    /// The first step of a stage after the input.
    fn enter_stage<E>(&mut self, stage: Stage) -> (action: Action<B, E>)
        ensures
            (final(self)@, action) == enter::<K, B, E>(old(self)@, stage),
    {
        if !self.grouped {
            self.phase = Phase::Lookup(stage);
            Action::Lookup(stage)
        } else if self.keys.len() == 0 {
            self.phase = Phase::Done;
            Action::Done
        } else {
            match stage {
                Stage::Execute => {
                    self.phase = Phase::Execute(0);
                    Action::Execute(0)
                },
                Stage::Fetch => {
                    self.phase = Phase::Fetch(0);
                    Action::Fetch(0)
                },
                _ => {
                    self.phase = Phase::Finish(0);
                    Action::Finish(0)
                },
            }
        }
    }

    /// Stops the run.
    fn stop<E>(&mut self, failure: Failure<E>) -> (action: Action<B, E>)
        ensures
            (final(self)@, action) == fail::<K, B, E>(old(self)@, failure),
    {
        self.phase = Phase::Failed;
        Action::Fail(failure)
    }

    /// The number of processors.
    fn processors(&self) -> (n: usize)
        ensures
            n == processor_count(self@),
    {
        if self.grouped {
            self.keys.len()
        } else {
            1
        }
    }

    /// Goes on after a function of the library returned `code`.
    fn take_code<E>(&mut self, code: i32) -> (action: Action<B, E>)
        requires
            is_key::<K>(),
            old(self).wf(),
            old(self)@.keys.len() < usize::MAX,
            expects(old(self)@, Event::<K, B, E>::Code(code)),
        ensures
            (final(self)@, action) == after_code::<K, B, E>(old(self)@, code),
            final(self).wf(),
    {
        let n: usize = self.processors();
        match self.phase {
            Phase::Feed(p) => if code != 0 {
                self.stop(Failure::Code { stage: Stage::Feed, code, processor: p })
            } else if self.grouped {
                self.route_next()
            } else {
                self.phase = Phase::Input;
                Action::NextBatch
            },
            Phase::Execute(p) => if code != 0 {
                self.stop(Failure::Code { stage: Stage::Execute, code, processor: p })
            } else if p + 1 < n {
                self.phase = Phase::Execute(p + 1);
                Action::Execute(p + 1)
            } else {
                self.enter_stage(Stage::Fetch)
            },
            Phase::Fetch(p) => if code < 0 {
                self.stop(Failure::Code { stage: Stage::Fetch, code, processor: p })
            } else if code != 1 {
                self.phase = Phase::Emit(p);
                Action::Emit(p)
            } else if p + 1 < n {
                self.phase = Phase::Fetch(p + 1);
                Action::Fetch(p + 1)
            } else {
                self.enter_stage(Stage::Finish)
            },
            Phase::Finish(p) => if code != 0 {
                self.stop(Failure::Code { stage: Stage::Finish, code, processor: p })
            } else if p + 1 < n {
                self.phase = Phase::Finish(p + 1);
                Action::Finish(p + 1)
            } else {
                self.phase = Phase::Done;
                Action::Done
            },
            _ => Action::Done,
        }
    }

    /// Goes on after the function of `stage` was found.
    fn take_symbol<E>(&mut self, stage: Stage) -> (action: Action<B, E>)
        requires
            old(self).wf(),
            old(self)@.phase == Phase::Lookup(stage),
        ensures
            (final(self)@, action) == after_lookup::<K, B, E>(old(self)@, stage),
            final(self).wf(),
    {
        let (phase, action) = match (self.grouped, stage) {
            (true, Stage::Init) => (Phase::Lookup(Stage::Feed), Action::Lookup(Stage::Feed)),
            (true, Stage::Feed) => (Phase::Lookup(Stage::Execute), Action::Lookup(Stage::Execute)),
            (true, Stage::Execute) => (Phase::Lookup(Stage::Fetch), Action::Lookup(Stage::Fetch)),
            (true, Stage::Fetch) => (Phase::Lookup(Stage::Finish), Action::Lookup(Stage::Finish)),
            (true, Stage::Finish) => (Phase::Encode, Action::EncodeSchema),
            (false, Stage::Init) => (Phase::Encode, Action::EncodeSchema),
            (false, Stage::Feed) => (Phase::Input, Action::NextBatch),
            (false, Stage::Execute) => (Phase::Execute(0), Action::Execute(0)),
            (false, Stage::Fetch) => (Phase::Fetch(0), Action::Fetch(0)),
            (false, Stage::Finish) => (Phase::Finish(0), Action::Finish(0)),
        };
        self.phase = phase;
        action
    }

    /// Takes what came of the last action and gives the next one.
    pub fn step<E>(&mut self, event: Event<K, B, E>) -> (action: Action<B, E>)
        requires
            is_key::<K>(),
            old(self).wf(),
            old(self)@.keys.len() < usize::MAX,
            expects(old(self)@, event),
        ensures
            (final(self)@, action) == next(old(self)@, event),
            final(self).wf(),
    {
        match event {
            Event::Failed(error) => self.stop(Failure::Outside(error)),
            Event::Missing(detail) => match self.phase {
                Phase::Lookup(stage) => self.stop(Failure::MissingSymbol { stage, detail }),
                _ => Action::Done,
            },
            Event::Found => match self.phase {
                Phase::Lookup(stage) => self.take_symbol(stage),
                _ => Action::Done,
            },
            Event::Encoded => if self.grouped {
                self.phase = Phase::Input;
                Action::NextBatch
            } else {
                self.phase = Phase::Init(0);
                Action::Init(0)
            },
            Event::Ready => match (self.phase, self.waiting.take()) {
                (Phase::Init(p), Some(part)) => {
                    self.phase = Phase::Feed(p);
                    Action::Feed(p, part)
                },
                _ => {
                    self.phase = Phase::Lookup(Stage::Feed);
                    Action::Lookup(Stage::Feed)
                },
            },
            Event::Whole(batch) => {
                self.phase = Phase::Feed(0);
                Action::Feed(0, batch)
            },
            Event::Parts(parts) => {
                self.parts = parts;
                self.route_next()
            },
            Event::EndOfInput => self.enter_stage(Stage::Execute),
            Event::Code(code) => self.take_code(code),
            Event::Sent => match self.phase {
                Phase::Emit(p) => {
                    self.phase = Phase::Fetch(p);
                    Action::Fetch(p)
                },
                _ => Action::Done,
            },
        }
    }

    /// The key of a processor of a grouped run.
    pub fn key(&self, processor: usize) -> (key: &K)
        requires
            processor < self@.keys.len(),
        ensures
            *key == self@.keys[processor as int],
    {
        &self.keys[processor]
    }
}

} // verus!
