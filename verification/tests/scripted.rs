use neocurl::codec::{from_base64, to_base64};
use neocurl::dump::{dump_table, LuaValue};
use neocurl::logger::{thread_log_line, PyLogLevel};
use neocurl::registry::{Registry, TestFlag};
use neocurl::tally::{assert_t, test_summary, Tally};
use neocurl::tasks::{RunOutcome, TaskAction, TaskRunner};

fn text(s: &str) -> LuaValue {
    LuaValue::Text(Some(s.to_string()))
}

/// A registry with the one definition `name`.
fn defined(name: &str) -> Registry {
    let mut registry = Registry::new();
    registry.define(name.to_string(), TestFlag::Missing);
    registry
}

/// Runs the tasks `names` for `trials` trials, every instance ending well,
/// and returns what the caller was told to do.
fn run_async(names: &[&str], trials: u32, delay: u64) -> (Vec<TaskAction>, RunOutcome) {
    let names: Vec<String> = names.iter().map(|n| n.to_string()).collect();
    let mut runner = TaskRunner::new(names, trials, delay).unwrap();
    let mut actions = Vec::new();
    let mut launched = Vec::new();
    loop {
        let action = runner.advance();
        actions.push(action);
        match action {
            TaskAction::Launch { instance, .. } => launched.push(instance),
            TaskAction::Pause(_) => {}
            TaskAction::Await => {
                let instance = launched.pop().unwrap();
                runner.begin(instance).unwrap();
                runner.complete(instance).unwrap();
            }
            TaskAction::Finished => break,
        }
    }
    (actions, runner.outcome())
}

#[test]
fn base64() {
    let mut tally = Tally::new();
    let data = "Hello, World!";
    let encoded = to_base64(data);
    let decoded = from_base64(&encoded);
    assert_t(&mut tally, data == decoded);
    let (passed, failed) = test_summary(&mut tally);
    assert_eq!(passed, 1);
    assert_eq!(failed, 0);
}

#[test]
fn test_dump() {
    let test_table = vec![
        (text("key1"), text("value1")),
        (text("key2"), LuaValue::Integer(42)),
        (text("key3"), LuaValue::Boolean(true)),
        (text("key4"), LuaValue::Table(vec![(text("nested_key"), text("nested_value"))])),
    ];
    assert_eq!(
        dump_table(&test_table, false),
        "key1: value1\nkey2: 42\nkey3: true\nkey4: <table>\n"
    );
}

#[test]
fn debug() {
    let line = thread_log_line(PyLogLevel::Debug, "2024-05-01T12:00:00", "main", "This is a debug message");
    assert_eq!(
        line,
        "\x1b[38;5;102m2024-05-01T12:00:00\x1b[39m \x1b[1m\x1b[96mDEBUG\x1b[39m\x1b[0m \x1b[38;5;102mmain\x1b[39m\x1b[38;5;102m:\x1b[39m This is a debug message"
    );
}

#[test]
fn info() {
    let line = thread_log_line(PyLogLevel::Info, "2024-05-01T12:00:00", "main", "This is an info message");
    assert_eq!(
        line,
        "\x1b[38;5;102m2024-05-01T12:00:00\x1b[39m \x1b[1m\x1b[92m INFO\x1b[39m\x1b[0m \x1b[38;5;102mmain\x1b[39m\x1b[38;5;102m:\x1b[39m This is an info message"
    );
}

#[test]
fn warn() {
    let line = thread_log_line(PyLogLevel::Warn, "2024-05-01T12:00:00", "main", "This is a warning message");
    assert_eq!(
        line,
        "\x1b[38;5;102m2024-05-01T12:00:00\x1b[39m \x1b[1m\x1b[93m WARN\x1b[39m\x1b[0m \x1b[38;5;102mmain\x1b[39m\x1b[38;5;102m:\x1b[39m This is a warning message"
    );
}

#[test]
fn error() {
    let line = thread_log_line(PyLogLevel::Error, "2024-05-01T12:00:00", "main", "This is an error message");
    assert_eq!(
        line,
        "\x1b[38;5;102m2024-05-01T12:00:00\x1b[39m \x1b[1m\x1b[91mERROR\x1b[39m\x1b[0m \x1b[38;5;102mmain\x1b[39m\x1b[38;5;102m:\x1b[39m This is an error message"
    );
}

#[test]
fn assert_counts_a_pass() {
    let mut tally = Tally::new();
    assert!(assert_t(&mut tally, true));
    assert_eq!(tally, Tally { passed: 1, failed: 0 });
}

#[test]
fn test_run_single() {
    let registry = defined("run_this");
    assert!(registry.find("run_this").is_some());
}

#[test]
fn test_run_multiple() {
    let registry = defined("run_this");
    for _ in 0..3 {
        assert!(registry.find("run_this").is_some());
    }
}

#[test]
fn test_run_async_single() {
    let (actions, outcome) = run_async(&["run_this"], 1, 100);
    assert_eq!(
        actions,
        vec![
            TaskAction::Launch { instance: 0, trial: 0, task: 0 },
            TaskAction::Await,
            TaskAction::Finished,
        ]
    );
    assert_eq!(outcome, RunOutcome::Succeeded);
}

#[test]
fn test_run_async_multiple() {
    let (actions, outcome) = run_async(&["run_this"], 3, 100);
    let launches = actions.iter().filter(|a| matches!(a, TaskAction::Launch { .. })).count();
    assert_eq!(launches, 3);
    assert_eq!(outcome, RunOutcome::Succeeded);
}

#[test]
fn test_run_async_with_delay() {
    let (actions, outcome) = run_async(&["run_this"], 3, 100);
    let pauses: Vec<&TaskAction> =
        actions.iter().filter(|a| matches!(a, TaskAction::Pause(_))).collect();
    assert_eq!(pauses, vec![&TaskAction::Pause(100), &TaskAction::Pause(100)]);
    assert_eq!(outcome, RunOutcome::Succeeded);
}

#[test]
fn run_definition_in_registry_success() {
    let registry = defined("test");
    let name = "test".to_string();
    let result = registry.find(&name);

    assert!(result.is_some());
}

#[test]
fn run_definition_in_registry_missing() {
    let registry = defined("test");
    let name = "missing".to_string();
    let result = registry.find(&name);

    assert!(result.is_none());
}
