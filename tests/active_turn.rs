use std::sync::Arc;
use tokio::sync::Notify;
use tokio_util::sync::CancellationToken;
use tokio_util::task::AbortOnDropHandle;
use turn_engine::active_turn::ActiveTurn;
use turn_engine::active_turn::RunningTask;
use turn_engine::active_turn::TaskKind;
use turn_engine::active_turn::TurnContext;

fn runtime() -> tokio::runtime::Runtime {
    tokio::runtime::Builder::new_current_thread()
        .build()
        .expect("runtime")
}

fn task(rt: &tokio::runtime::Runtime, sub_id: &str, kind: TaskKind) -> RunningTask {
    let handle = rt.spawn(async {});
    RunningTask {
        done: Arc::new(Notify::new()),
        kind,
        cancellation_token: CancellationToken::new(),
        handle: Arc::new(AbortOnDropHandle::new(handle)),
        turn_context: Arc::new(TurnContext {
            sub_id: sub_id.to_string(),
            cwd: "/repo".to_string(),
        }),
    }
}

fn ids(tasks: &[RunningTask]) -> Vec<String> {
    tasks.iter().map(|t| t.turn_context.sub_id.clone()).collect()
}

#[test]
fn drain_returns_tasks_in_insertion_order() {
    let rt = runtime();
    let mut turn = ActiveTurn::default();
    turn.add_task(task(&rt, "one", TaskKind::Regular));
    turn.add_task(task(&rt, "two", TaskKind::Review));
    turn.add_task(task(&rt, "three", TaskKind::Compact));
    let drained = turn.drain_tasks();
    assert_eq!(ids(&drained), vec!["one", "two", "three"]);
    assert_eq!(drained[1].kind, TaskKind::Review);
    assert!(turn.drain_tasks().is_empty());
}

#[test]
fn remove_task_reports_when_the_turn_is_idle() {
    let rt = runtime();
    let mut turn = ActiveTurn::default();
    turn.add_task(task(&rt, "a", TaskKind::Regular));
    turn.add_task(task(&rt, "b", TaskKind::Regular));
    assert!(!turn.remove_task("a"));
    assert!(!turn.remove_task("missing"));
    assert!(turn.remove_task("b"));
    assert!(turn.remove_task("b"));
}

#[test]
fn removal_keeps_the_order_of_the_other_tasks() {
    let rt = runtime();
    let mut turn = ActiveTurn::default();
    for id in ["a", "b", "c", "d"] {
        turn.add_task(task(&rt, id, TaskKind::Regular));
    }
    assert!(!turn.remove_task("b"));
    assert_eq!(ids(&turn.drain_tasks()), vec!["a", "c", "d"]);
}

#[test]
fn drain_after_removals_keeps_insertion_order() {
    let rt = runtime();
    let mut turn = ActiveTurn::default();
    turn.add_task(task(&rt, "one", TaskKind::Regular));
    turn.add_task(task(&rt, "two", TaskKind::Regular));
    turn.add_task(task(&rt, "three", TaskKind::Regular));
    assert!(!turn.remove_task("one"));
    turn.add_task(task(&rt, "four", TaskKind::Regular));
    assert_eq!(ids(&turn.drain_tasks()), vec!["two", "three", "four"]);
    assert!(turn.drain_tasks().is_empty());
}

#[test]
fn same_sub_id_replaces_in_place() {
    let rt = runtime();
    let mut turn = ActiveTurn::default();
    turn.add_task(task(&rt, "a", TaskKind::Regular));
    turn.add_task(task(&rt, "b", TaskKind::Regular));
    turn.add_task(task(&rt, "a", TaskKind::Compact));
    let drained = turn.drain_tasks();
    assert_eq!(ids(&drained), vec!["a", "b"]);
    assert_eq!(drained[0].kind, TaskKind::Compact);
}

#[test]
fn drained_tasks_can_be_cancelled() {
    let rt = runtime();
    let mut turn = ActiveTurn::default();
    turn.add_task(task(&rt, "a", TaskKind::Regular));
    for t in turn.drain_tasks() {
        t.cancellation_token.cancel();
        assert!(t.cancellation_token.is_cancelled());
    }
}
