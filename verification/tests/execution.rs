use ballista_map_partition::error::ErrorKind;
use ballista_map_partition::execution::lifecycle::{
    code_error, missing_error, symbol_name, Action, Event, Failure, Lifecycle, Stage,
};

type Run = Lifecycle<&'static str, u32>;
type Step = Action<u32, String>;
type Answer = Event<&'static str, u32, String>;

fn start(grouped: bool) -> (Run, Step) {
    Lifecycle::new(grouped)
}

fn all_symbols(run: &mut Run) {
    let stages = [Stage::Feed, Stage::Execute, Stage::Fetch, Stage::Finish];
    for stage in stages {
        let step: Step = run.step(Answer::Found);
        assert!(matches!(step, Action::Lookup(s) if s == stage));
    }
    let step: Step = run.step(Answer::Found);
    assert!(matches!(step, Action::EncodeSchema));
    let step: Step = run.step(Answer::Encoded);
    assert!(matches!(step, Action::NextBatch));
}

#[test]
fn symbols_are_named_after_their_stage() {
    assert_eq!(symbol_name("proc", Stage::Init), "proc_init");
    assert_eq!(symbol_name("proc", Stage::Feed), "proc_feed");
    assert_eq!(symbol_name("proc", Stage::Execute), "proc_execute");
    assert_eq!(symbol_name("proc", Stage::Fetch), "proc_fetch");
    assert_eq!(symbol_name("proc", Stage::Finish), "proc_finish");
}

#[test]
fn failures_have_their_messages() {
    let error = missing_error("proc", Stage::Feed, "undefined symbol");
    assert_eq!(error.kind, ErrorKind::Internal);
    assert_eq!(error.message, "symbol proc_feed not found: undefined symbol");
    let error = code_error("proc", Stage::Execute, -7, None);
    assert_eq!(error.message, "proc_execute returned error code -7");
    let error = code_error("proc", Stage::Finish, 3, Some("Utf8(\"east\")"));
    assert_eq!(error.message, "proc_finish returned error code 3 for key Utf8(\"east\")");
    assert_eq!(error.kind, ErrorKind::Internal);
}

#[test]
fn a_single_processor_runs_through_its_stages() {
    let (mut run, first) = start(false);
    assert!(matches!(first, Action::Lookup(Stage::Init)));
    assert!(matches!(run.step(Answer::Found), Step::EncodeSchema));
    assert!(matches!(run.step(Answer::Encoded), Step::Init(0)));
    assert!(matches!(run.step(Answer::Ready), Step::Lookup(Stage::Feed)));
    assert!(matches!(run.step(Answer::Found), Step::NextBatch));
    assert!(matches!(run.step(Answer::Whole(11)), Step::Feed(0, 11)));
    assert!(matches!(run.step(Answer::Code(0)), Step::NextBatch));
    assert!(matches!(run.step(Answer::Whole(12)), Step::Feed(0, 12)));
    assert!(matches!(run.step(Answer::Code(0)), Step::NextBatch));
    assert!(matches!(run.step(Answer::EndOfInput), Step::Lookup(Stage::Execute)));
    assert!(matches!(run.step(Answer::Found), Step::Execute(0)));
    assert!(matches!(run.step(Answer::Code(0)), Step::Lookup(Stage::Fetch)));
    assert!(matches!(run.step(Answer::Found), Step::Fetch(0)));
    assert!(matches!(run.step(Answer::Code(0)), Step::Emit(0)));
    assert!(matches!(run.step(Answer::Sent), Step::Fetch(0)));
    assert!(matches!(run.step(Answer::Code(2)), Step::Emit(0)));
    assert!(matches!(run.step(Answer::Sent), Step::Fetch(0)));
    assert!(matches!(run.step(Answer::Code(1)), Step::Lookup(Stage::Finish)));
    assert!(matches!(run.step(Answer::Found), Step::Finish(0)));
    assert!(matches!(run.step(Answer::Code(0)), Step::Done));
}

#[test]
fn a_grouped_run_has_one_processor_per_key() {
    let (mut run, first) = start(true);
    assert!(matches!(first, Action::Lookup(Stage::Init)));
    all_symbols(&mut run);

    let parts = vec![("east", 1), ("west", 2)];
    assert!(matches!(run.step(Answer::Parts(parts)), Step::Init(0)));
    assert!(matches!(run.step(Answer::Ready), Step::Feed(0, 1)));
    assert!(matches!(run.step(Answer::Code(0)), Step::Init(1)));
    assert!(matches!(run.step(Answer::Ready), Step::Feed(1, 2)));
    assert!(matches!(run.step(Answer::Code(0)), Step::NextBatch));

    let parts = vec![("west", 3), ("north", 4), ("east", 5)];
    assert!(matches!(run.step(Answer::Parts(parts)), Step::Feed(1, 3)));
    assert!(matches!(run.step(Answer::Code(0)), Step::Init(2)));
    assert!(matches!(run.step(Answer::Ready), Step::Feed(2, 4)));
    assert!(matches!(run.step(Answer::Code(0)), Step::Feed(0, 5)));
    assert!(matches!(run.step(Answer::Code(0)), Step::NextBatch));
    assert!(matches!(run.step(Answer::Parts(vec![])), Step::NextBatch));

    assert_eq!(*run.key(0), "east");
    assert_eq!(*run.key(1), "west");
    assert_eq!(*run.key(2), "north");

    assert!(matches!(run.step(Answer::EndOfInput), Step::Execute(0)));
    assert!(matches!(run.step(Answer::Code(0)), Step::Execute(1)));
    assert!(matches!(run.step(Answer::Code(0)), Step::Execute(2)));
    assert!(matches!(run.step(Answer::Code(0)), Step::Fetch(0)));
    assert!(matches!(run.step(Answer::Code(0)), Step::Emit(0)));
    assert!(matches!(run.step(Answer::Sent), Step::Fetch(0)));
    assert!(matches!(run.step(Answer::Code(1)), Step::Fetch(1)));
    assert!(matches!(run.step(Answer::Code(1)), Step::Fetch(2)));
    assert!(matches!(run.step(Answer::Code(1)), Step::Finish(0)));
    assert!(matches!(run.step(Answer::Code(0)), Step::Finish(1)));
    assert!(matches!(run.step(Answer::Code(0)), Step::Finish(2)));
    assert!(matches!(run.step(Answer::Code(0)), Step::Done));
}

#[test]
fn a_grouped_run_without_rows_is_done_at_once() {
    let (mut run, _) = start(true);
    all_symbols(&mut run);
    assert!(matches!(run.step(Answer::EndOfInput), Step::Done));
}

#[test]
fn a_missing_symbol_stops_a_run() {
    let (mut run, _) = start(true);
    let step: Step = run.step(Answer::Found);
    assert!(matches!(step, Action::Lookup(Stage::Feed)));
    match run.step(Answer::Missing("gone".to_string())) {
        Step::Fail(Failure::MissingSymbol { stage, detail }) => {
            assert_eq!(stage, Stage::Feed);
            assert_eq!(detail, "gone");
        }
        other => panic!("{other:?}"),
    }
}

#[test]
fn an_error_code_stops_a_run() {
    let (mut run, _) = start(true);
    all_symbols(&mut run);
    let _: Step = run.step(Answer::Parts(vec![("east", 1)]));
    let _: Step = run.step(Answer::Ready);
    match run.step(Answer::Code(-1)) {
        Step::Fail(Failure::Code { stage, code, processor }) => {
            assert_eq!(stage, Stage::Feed);
            assert_eq!(code, -1);
            assert_eq!(processor, 0);
        }
        other => panic!("{other:?}"),
    }
}

#[test]
fn each_stage_reports_its_own_error_code() {
    for failing in [Stage::Execute, Stage::Fetch, Stage::Finish] {
        let (mut run, _) = start(true);
        all_symbols(&mut run);
        let _: Step = run.step(Answer::Parts(vec![("east", 1)]));
        let _: Step = run.step(Answer::Ready);
        let _: Step = run.step(Answer::Code(0));
        let mut step: Step = run.step(Answer::EndOfInput);
        loop {
            step = match step {
                Action::Execute(_) if failing == Stage::Execute => run.step(Answer::Code(5)),
                Action::Execute(_) => run.step(Answer::Code(0)),
                Action::Fetch(_) if failing == Stage::Fetch => run.step(Answer::Code(-5)),
                Action::Fetch(_) => run.step(Answer::Code(1)),
                Action::Finish(_) => run.step(Answer::Code(5)),
                Action::Fail(Failure::Code { stage, processor, .. }) => {
                    assert_eq!(stage, failing);
                    assert_eq!(processor, 0);
                    break;
                }
                other => panic!("{other:?}"),
            };
        }
    }
}

#[test]
fn an_outside_failure_stops_a_run() {
    let (mut run, _) = start(false);
    let _: Step = run.step(Answer::Found);
    match run.step(Answer::Failed("no schema".to_string())) {
        Step::Fail(Failure::Outside(error)) => assert_eq!(error, "no schema"),
        other => panic!("{other:?}"),
    }
}

#[test]
fn output_goes_out_in_the_order_of_the_keys() {
    let (mut run, _) = start(true);
    all_symbols(&mut run);
    let mut step: Step = run.step(Answer::Parts(vec![("b", 1), ("a", 2)]));
    let mut left = [2, 1];
    let mut sent = vec![];
    loop {
        step = match step {
            Action::Init(_) => run.step(Answer::Ready),
            Action::NextBatch => run.step(Answer::EndOfInput),
            Action::Fetch(p) if left[p] == 0 => run.step(Answer::Code(1)),
            Action::Emit(p) => {
                left[p] -= 1;
                sent.push(*run.key(p));
                run.step(Answer::Sent)
            }
            Action::Done => break,
            _ => run.step(Answer::Code(0)),
        };
    }
    assert_eq!(sent, vec!["b", "b", "a"]);
}
