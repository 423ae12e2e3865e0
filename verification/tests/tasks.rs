use neocurl::tally::Tally;
use neocurl::tasks::{
    Phase, PhaseError, RunOutcome, TaskAction, TaskError, TaskRunner, DEFAULT_DELAY, DEFAULT_TRIALS,
};

fn names(list: &[&str]) -> Vec<String> {
    list.iter().map(|n| n.to_string()).collect()
}

/// Launches everything, collecting the actions up to the first `Await` or
/// `Finished`.
fn launch_all(runner: &mut TaskRunner) -> Vec<TaskAction> {
    let mut actions = Vec::new();
    loop {
        let action = runner.advance();
        actions.push(action);
        if matches!(action, TaskAction::Await | TaskAction::Finished) {
            return actions;
        }
    }
}

#[test]
fn instances_are_launched_trial_by_trial_with_pauses_between() {
    let mut runner = TaskRunner::new(names(&["login", "fetch"]), 2, 100).unwrap();
    assert_eq!(runner.total(), 4);
    assert_eq!(
        launch_all(&mut runner),
        vec![
            TaskAction::Launch { instance: 0, trial: 0, task: 0 },
            TaskAction::Pause(100),
            TaskAction::Launch { instance: 1, trial: 0, task: 1 },
            TaskAction::Pause(100),
            TaskAction::Launch { instance: 2, trial: 1, task: 0 },
            TaskAction::Pause(100),
            TaskAction::Launch { instance: 3, trial: 1, task: 1 },
            TaskAction::Await,
        ]
    );
    assert_eq!(runner.launched(), 4);
    assert_eq!(runner.advance(), TaskAction::Await);
}

#[test]
fn a_single_instance_needs_no_pause() {
    let mut runner = TaskRunner::new(names(&["run_this"]), 1, 100).unwrap();
    assert_eq!(
        launch_all(&mut runner),
        vec![TaskAction::Launch { instance: 0, trial: 0, task: 0 }, TaskAction::Await]
    );
}

#[test]
fn run_of_nothing_is_finished_at_once() {
    let mut no_trials = TaskRunner::new(names(&["a"]), 0, 5).unwrap();
    assert_eq!(no_trials.advance(), TaskAction::Finished);
    assert_eq!(no_trials.outcome(), RunOutcome::Succeeded);
    let mut no_tasks = TaskRunner::new(Vec::new(), 3, 5).unwrap();
    assert_eq!(no_tasks.total(), 0);
    assert_eq!(no_tasks.advance(), TaskAction::Finished);
    assert!(no_tasks.is_done());
}

#[test]
fn every_instance_ending_well_is_success() {
    let mut runner = TaskRunner::new(names(&["run_this"]), 3, 0).unwrap();
    launch_all(&mut runner);
    assert_eq!(runner.outcome(), RunOutcome::Running);
    for instance in [2, 0, 1] {
        assert_eq!(runner.phase(instance), Some(Phase::Spawned));
        runner.begin(instance).unwrap();
        assert_eq!(runner.phase(instance), Some(Phase::Executing));
        runner.complete(instance).unwrap();
        assert_eq!(runner.phase(instance), Some(Phase::Completed));
    }
    assert_eq!(runner.completed(), 3);
    assert!(runner.is_done());
    assert_eq!(runner.advance(), TaskAction::Finished);
    assert_eq!(runner.outcome(), RunOutcome::Succeeded);
}

#[test]
fn a_failure_is_named_and_cancels_no_sibling() {
    let mut runner = TaskRunner::new(names(&["login", "fetch"]), 2, 10).unwrap();
    launch_all(&mut runner);
    for instance in 0..4 {
        runner.begin(instance).unwrap();
    }
    runner.fail(3, "status was 500".to_string()).unwrap();
    for instance in 0..3 {
        assert_eq!(runner.phase(instance), Some(Phase::Executing));
    }
    assert_eq!(runner.outcome(), RunOutcome::Running);
    runner.complete(0).unwrap();
    runner.fail(1, "timeout".to_string()).unwrap();
    assert_eq!(runner.advance(), TaskAction::Await);
    runner.complete(2).unwrap();
    assert_eq!(runner.advance(), TaskAction::Finished);
    assert_eq!(
        runner.outcome(),
        RunOutcome::Failed(vec![
            TaskError {
                instance: 1,
                trial: 0,
                name: "fetch".to_string(),
                message: "timeout".to_string()
            },
            TaskError {
                instance: 3,
                trial: 1,
                name: "fetch".to_string(),
                message: "status was 500".to_string()
            },
        ])
    );
}

#[test]
fn an_instance_can_fail_before_its_task_starts() {
    let mut runner = TaskRunner::new(names(&["a"]), 1, 0).unwrap();
    launch_all(&mut runner);
    runner.fail(0, "no interpreter".to_string()).unwrap();
    assert_eq!(runner.phase(0), Some(Phase::Failed));
    assert_eq!(
        runner.outcome(),
        RunOutcome::Failed(vec![TaskError {
            instance: 0,
            trial: 0,
            name: "a".to_string(),
            message: "no interpreter".to_string()
        }])
    );
}

#[test]
fn events_out_of_turn_are_refused_and_change_nothing() {
    let mut runner = TaskRunner::new(names(&["a", "b"]), 1, 0).unwrap();
    assert_eq!(runner.begin(0), Err(PhaseError::WrongPhase));
    assert_eq!(runner.fail(0, "early".to_string()), Err(PhaseError::WrongPhase));
    assert_eq!(runner.begin(2), Err(PhaseError::UnknownInstance));
    assert_eq!(runner.complete(2), Err(PhaseError::UnknownInstance));
    assert_eq!(runner.fail(2, "x".to_string()), Err(PhaseError::UnknownInstance));
    assert_eq!(runner.record(2, true), Err(PhaseError::UnknownInstance));
    assert_eq!(runner.advance(), TaskAction::Launch { instance: 0, trial: 0, task: 0 });
    assert_eq!(runner.complete(0), Err(PhaseError::WrongPhase));
    assert_eq!(runner.record(0, true), Err(PhaseError::WrongPhase));
    runner.begin(0).unwrap();
    assert_eq!(runner.begin(0), Err(PhaseError::WrongPhase));
    runner.complete(0).unwrap();
    assert_eq!(runner.complete(0), Err(PhaseError::WrongPhase));
    assert_eq!(runner.fail(0, "late".to_string()), Err(PhaseError::WrongPhase));
    assert_eq!(runner.phase(0), Some(Phase::Completed));
    assert_eq!(runner.phase(1), Some(Phase::Pending));
    assert_eq!(runner.phase(2), None);
    assert_eq!(runner.completed(), 1);
}

#[test]
fn two_instances_of_one_task_do_not_see_each_others_counts() {
    let mut runner = TaskRunner::new(names(&["counter"]), 2, 0).unwrap();
    launch_all(&mut runner);
    runner.begin(0).unwrap();
    runner.begin(1).unwrap();
    runner.record(0, true).unwrap();
    runner.record(0, true).unwrap();
    runner.record(1, false).unwrap();
    runner.record(0, true).unwrap();
    assert_eq!(runner.tally(0), Some(Tally { passed: 3, failed: 0 }));
    assert_eq!(runner.tally(1), Some(Tally { passed: 0, failed: 1 }));
    assert_eq!(runner.tally(2), None);
    runner.fail(1, "one check failed".to_string()).unwrap();
    assert_eq!(runner.tally(0), Some(Tally { passed: 3, failed: 0 }));
    assert_eq!(runner.phase(0), Some(Phase::Executing));
}

#[test]
fn progress_counts_ended_instances_whatever_their_task() {
    let mut runner = TaskRunner::new(names(&["a", "b", "c"]), 2, 0).unwrap();
    launch_all(&mut runner);
    let mut seen = 0;
    for instance in [4, 1, 5, 0, 3, 2] {
        runner.begin(instance).unwrap();
        if instance % 2 == 0 {
            runner.complete(instance).unwrap();
        } else {
            runner.fail(instance, String::new()).unwrap();
        }
        seen += 1;
        assert_eq!(runner.completed(), seen);
    }
    assert!(runner.is_done());
}

#[test]
fn defaults_of_a_run() {
    assert_eq!(DEFAULT_TRIALS, 1);
    assert_eq!(DEFAULT_DELAY, 100);
    let mut runner = TaskRunner::new(names(&["a", "b"]), DEFAULT_TRIALS, DEFAULT_DELAY).unwrap();
    assert_eq!(
        launch_all(&mut runner),
        vec![
            TaskAction::Launch { instance: 0, trial: 0, task: 0 },
            TaskAction::Pause(100),
            TaskAction::Launch { instance: 1, trial: 0, task: 1 },
            TaskAction::Await,
        ]
    );
}
