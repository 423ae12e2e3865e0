use neocurl::registry::{Registry, TestFlag};
use neocurl::tally::{assert_f, assert_t, test_summary, Overview, Session, Tally};

#[test]
fn checks_are_counted() {
    let mut tally = Tally::new();
    assert_eq!(tally, Tally { passed: 0, failed: 0 });
    assert!(assert_t(&mut tally, true));
    assert!(!assert_t(&mut tally, false));
    assert!(assert_f(&mut tally, false));
    assert!(!assert_f(&mut tally, true));
    assert!(assert_t(&mut tally, true));
    assert_eq!(tally, Tally { passed: 3, failed: 2 });
    assert!(tally.any_failed());
}

#[test]
fn summary_reads_and_starts_over() {
    let mut tally = Tally::new();
    tally.record(true);
    tally.record(false);
    tally.record(true);
    assert_eq!(test_summary(&mut tally), (2, 1));
    assert_eq!(tally, Tally { passed: 0, failed: 0 });
    assert_eq!(test_summary(&mut tally), (0, 0));
    assert!(!tally.any_failed());
}

#[test]
fn counters_start_over_after_the_greatest_number() {
    let mut tally = Tally { passed: usize::MAX, failed: usize::MAX - 1 };
    tally.record(true);
    tally.record(false);
    assert_eq!(tally, Tally { passed: 0, failed: usize::MAX });
    tally.record(false);
    assert_eq!(tally, Tally { passed: 0, failed: 0 });
}

#[test]
fn a_failed_call_counts_as_a_failed_check_too() {
    let mut session = Session::new();
    assert_eq!(session.exit_code(), 0);
    session.record_call(true);
    assert_eq!(session.tests, Tally { passed: 0, failed: 0 });
    assert_eq!(session.calls, Tally { passed: 1, failed: 0 });
    assert_eq!(session.exit_code(), 0);
    session.record_call(false);
    assert_eq!(session.tests, Tally { passed: 0, failed: 1 });
    assert_eq!(session.calls, Tally { passed: 1, failed: 1 });
    assert_eq!(session.exit_code(), 1);
}

#[test]
fn exit_code_reflects_failed_checks() {
    let mut session = Session::new();
    session.tests.record(true);
    assert_eq!(session.exit_code(), 0);
    session.tests.record(false);
    assert_eq!(session.exit_code(), 1);
}

#[test]
fn overview_adds_up_and_lists_failed_tests() {
    let mut overview = Overview::new();
    assert_eq!(overview.exit_code(), 0);
    overview.add("first".to_string(), (3, 0));
    assert_eq!(overview.exit_code(), 0);
    overview.add("second".to_string(), (1, 2));
    overview.add("third".to_string(), (0, 0));
    overview.add("fourth".to_string(), (0, 1));
    assert_eq!(overview.passed, 4);
    assert_eq!(overview.failed, 3);
    assert_eq!(overview.failed_tests, vec!["second".to_string(), "fourth".to_string()]);
    assert_eq!(overview.exit_code(), 1);
}

#[test]
fn a_definition_is_a_test_unless_it_says_otherwise() {
    assert!(TestFlag::Missing.is_a_test());
    assert!(TestFlag::Flag(true).is_a_test());
    assert!(!TestFlag::Flag(false).is_a_test());
    assert!(!TestFlag::Other.is_a_test());
}

#[test]
fn registry_finds_the_first_definition_of_a_name() {
    let mut registry = Registry::new();
    assert_eq!(registry.len(), 0);
    assert_eq!(registry.find("test"), None);
    registry.define("test".to_string(), TestFlag::Missing);
    registry.define("setup".to_string(), TestFlag::Flag(false));
    registry.define("test".to_string(), TestFlag::Other);
    assert_eq!(registry.len(), 3);
    assert_eq!(registry.find("test"), Some(0));
    assert_eq!(registry.find("setup"), Some(1));
    assert_eq!(registry.find("missing"), None);
    assert_eq!(registry.find("Test"), None);
    assert_eq!(registry.find(""), None);
    assert_eq!(
        registry.list_definitions(),
        vec![
            (true, "test".to_string()),
            (false, "setup".to_string()),
            (false, "test".to_string()),
        ]
    );
}
