use retitle::codec::parse_renamepairs;
use retitle::engine::Engine;
use retitle::engine::EngineStep;
use retitle::engine::Outcome;
use retitle::pair::RenamePair;

fn pair(from: &str, to: &str) -> RenamePair {
    RenamePair {
        from: from.to_string(),
        to: to.to_string(),
    }
}

fn expect_apply(engine: &Engine, from: &str, to: &str) {
    match engine.next_step() {
        EngineStep::Apply { from: f, to: t } => {
            assert_eq!(f, from);
            assert_eq!(t, to);
        }
        other => panic!("expected a forward rename, got {:?}", other),
    }
}

fn expect_undo(engine: &Engine, from: &str, to: &str) {
    match engine.next_step() {
        EngineStep::Undo { from: f, to: t } => {
            assert_eq!(f, from);
            assert_eq!(t, to);
        }
        other => panic!("expected an undo rename, got {:?}", other),
    }
}

fn expect_finished(engine: &Engine, outcome: Outcome) {
    match engine.next_step() {
        EngineStep::Finished { outcome: o } => assert_eq!(o, outcome),
        other => panic!("expected the run to be over, got {:?}", other),
    }
}

#[test]
fn empty_run_completes_without_any_rename() {
    let engine = Engine::new(Vec::new());
    expect_finished(&engine, Outcome::Completed);
}

#[test]
fn all_noop_run_completes_without_any_rename() {
    let engine = Engine::new(vec![pair("a", "a"), pair("b", "b")]);
    expect_finished(&engine, Outcome::Completed);
}

#[test]
fn swap_applies_both_in_order() {
    let mut engine = Engine::new(vec![pair("a.txt", "b.txt"), pair("b.txt", "a.txt")]);
    expect_apply(&engine, "a.txt", "b.txt");
    engine.record(true);
    expect_apply(&engine, "b.txt", "a.txt");
    engine.record(true);
    expect_finished(&engine, Outcome::Completed);
}

#[test]
fn swap_second_failure_rolls_back_first() {
    let mut engine = Engine::new(vec![pair("a.txt", "b.txt"), pair("b.txt", "a.txt")]);
    expect_apply(&engine, "a.txt", "b.txt");
    engine.record(true);
    expect_apply(&engine, "b.txt", "a.txt");
    engine.record(false);
    expect_undo(&engine, "b.txt", "a.txt");
    engine.record(true);
    expect_finished(&engine, Outcome::RolledBack);
}

#[test]
fn noop_pair_is_skipped_in_the_middle() {
    let mut engine = Engine::new(vec![pair("x", "y"), pair("keep", "keep"), pair("u", "v")]);
    expect_apply(&engine, "x", "y");
    engine.record(true);
    expect_apply(&engine, "u", "v");
    engine.record(true);
    expect_finished(&engine, Outcome::Completed);
}

#[test]
fn noop_pair_never_enters_rollback() {
    let mut engine = Engine::new(vec![pair("x", "y"), pair("keep", "keep"), pair("u", "v")]);
    expect_apply(&engine, "x", "y");
    engine.record(true);
    expect_apply(&engine, "u", "v");
    engine.record(false);
    // Only x -> y was applied, so only its reversal is requested.
    expect_undo(&engine, "y", "x");
    engine.record(true);
    expect_finished(&engine, Outcome::RolledBack);
}

#[test]
fn rollback_runs_in_strict_reverse_order() {
    let mut engine = Engine::new(vec![pair("a", "b"), pair("c", "d"), pair("e", "f")]);
    expect_apply(&engine, "a", "b");
    engine.record(true);
    expect_apply(&engine, "c", "d");
    engine.record(true);
    expect_apply(&engine, "e", "f");
    engine.record(false);
    expect_undo(&engine, "d", "c");
    engine.record(true);
    expect_undo(&engine, "b", "a");
    engine.record(true);
    expect_finished(&engine, Outcome::RolledBack);
}

#[test]
fn undo_failure_aborts_the_run() {
    let mut engine = Engine::new(vec![pair("a", "b"), pair("c", "d")]);
    expect_apply(&engine, "a", "b");
    engine.record(true);
    expect_apply(&engine, "c", "d");
    engine.record(false);
    expect_undo(&engine, "b", "a");
    engine.record(false);
    expect_finished(&engine, Outcome::Aborted);
}

#[test]
fn parsed_swap_input_drives_the_engine() {
    let pairs = parse_renamepairs("a.txt|b.txt\nb.txt|a.txt".to_string()).unwrap();
    let mut engine = Engine::new(pairs);
    expect_apply(&engine, "a.txt", "b.txt");
    engine.record(true);
    expect_apply(&engine, "b.txt", "a.txt");
    engine.record(true);
    expect_finished(&engine, Outcome::Completed);
}

#[test]
fn first_failure_halts_forward_progress() {
    let mut engine = Engine::new(vec![pair("a", "b"), pair("c", "d")]);
    expect_apply(&engine, "a", "b");
    engine.record(false);
    // Nothing was applied, so rollback has nothing to undo.
    expect_finished(&engine, Outcome::RolledBack);
}
