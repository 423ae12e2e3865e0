use neocurl::logger::{
    format_log, log, script_line_of, script_log_line, thread_line_of, thread_log_line, LogAction,
    PyLogLevel, PyLoggerConfig, DEFAULT_DATETIME_FORMAT, SCRIPT_MARK,
};

const LEVELS: [PyLogLevel; 5] = [
    PyLogLevel::Debug,
    PyLogLevel::Info,
    PyLogLevel::Warn,
    PyLogLevel::Error,
    PyLogLevel::Fatal,
];

fn plain() -> PyLoggerConfig {
    PyLoggerConfig { use_colors: false, ..PyLoggerConfig::default() }
}

#[test]
fn level_names() {
    let names: Vec<String> = LEVELS.iter().map(|l| l.format(false)).collect();
    assert_eq!(names, vec!["DEBUG", "INFO", "WARN", "ERROR", "FATAL"]);
}

#[test]
fn level_names_in_colour() {
    assert_eq!(PyLogLevel::Debug.format(true), "\x1b[34mDEBUG\x1b[39m");
    assert_eq!(PyLogLevel::Info.format(true), "\x1b[32mINFO\x1b[39m");
    assert_eq!(PyLogLevel::Warn.format(true), "\x1b[33mWARN\x1b[39m");
    assert_eq!(PyLogLevel::Error.format(true), "\x1b[31mERROR\x1b[39m");
    assert_eq!(PyLogLevel::Fatal.format(true), "\x1b[91mFATAL\x1b[39m");
}

#[test]
fn a_level_lets_through_what_matters_at_least_as_much() {
    let expected = [
        [true, true, true, true, true],
        [false, true, true, true, true],
        [false, false, true, true, true],
        [false, false, false, true, true],
        [false, false, false, false, false],
    ];
    for (i, this) in LEVELS.iter().enumerate() {
        for (j, other) in LEVELS.iter().enumerate() {
            assert_eq!(this.less_than(other), expected[i][j], "{:?} {:?}", this, other);
        }
    }
}

#[test]
fn default_config() {
    let config = PyLoggerConfig::default();
    assert!(config.use_colors);
    assert_eq!(config.level, PyLogLevel::Info);
    assert_eq!(config.datetime_format, "%Y-%m-%d %H:%M:%S");
    assert_eq!(DEFAULT_DATETIME_FORMAT, "%Y-%m-%d %H:%M:%S");
    assert_eq!(config.context, None);
}

#[test]
fn context_is_set_and_cleared() {
    let mut config = plain();
    config.set_context("login".to_string());
    assert_eq!(config.context.as_deref(), Some("login"));
    assert_eq!(config.level, PyLogLevel::Info);
    assert!(!config.use_colors);
    config.set_context("fetch".to_string());
    assert_eq!(config.context.as_deref(), Some("fetch"));
    config.clear_context();
    assert_eq!(config.context, None);
    assert_eq!(config.datetime_format, DEFAULT_DATETIME_FORMAT);
}

#[test]
fn plain_lines() {
    let mut config = plain();
    assert_eq!(
        format_log(&config, PyLogLevel::Warn, "slow answer", "2024-05-01 12:00:00"),
        "2024-05-01 12:00:00 WARN: slow answer"
    );
    config.set_context("login".to_string());
    assert_eq!(
        format_log(&config, PyLogLevel::Error, "no answer", "2024-05-01 12:00:01"),
        "2024-05-01 12:00:01 ERROR login: no answer"
    );
    assert_eq!(format_log(&config, PyLogLevel::Debug, "", ""), " DEBUG login: ");
}

#[test]
fn coloured_lines() {
    let mut config = PyLoggerConfig::default();
    assert_eq!(
        format_log(&config, PyLogLevel::Info, "ready", "12:00"),
        "\x1b[38;5;102m12:00\x1b[39m \x1b[32mINFO\x1b[39m\x1b[38;5;102m\x1b[39m\x1b[38;5;102m:\x1b[39m ready"
    );
    config.set_context("login".to_string());
    assert_eq!(
        format_log(&config, PyLogLevel::Fatal, "gone", "12:01"),
        "\x1b[38;5;102m12:01\x1b[39m \x1b[91mFATAL\x1b[39m\x1b[38;5;102m login\x1b[39m\x1b[38;5;102m:\x1b[39m gone"
    );
}

#[test]
fn messages_below_the_level_are_dropped() {
    let config = plain();
    assert_eq!(log(&config, PyLogLevel::Debug, "detail", "t"), LogAction::Skip);
    assert_eq!(
        log(&config, PyLogLevel::Info, "ready", "t"),
        LogAction::Print("t INFO: ready".to_string())
    );
    assert_eq!(
        log(&config, PyLogLevel::Error, "broken", "t"),
        LogAction::Print("t ERROR: broken".to_string())
    );
}

#[test]
fn a_fatal_message_ends_the_process() {
    let config = plain();
    assert_eq!(
        log(&config, PyLogLevel::Fatal, "gone", "t"),
        LogAction::PrintAndExit("t FATAL: gone".to_string())
    );
    let silent = PyLoggerConfig { level: PyLogLevel::Fatal, ..plain() };
    assert_eq!(log(&silent, PyLogLevel::Fatal, "gone", "t"), LogAction::Skip);
    assert_eq!(log(&silent, PyLogLevel::Error, "broken", "t"), LogAction::Skip);
}

#[test]
fn lines_of_a_script_are_marked_and_trimmed() {
    assert_eq!(SCRIPT_MARK, "<LUA>");
    assert_eq!(
        script_log_line(PyLogLevel::Debug, "2024-05-01T12:00:00", "  This is a debug message\n"),
        "2024-05-01T12:00:00 <LUA>    DEBUG: This is a debug message"
    );
    assert_eq!(
        script_log_line(PyLogLevel::Info, "t", "This is an info message"),
        "t <LUA>    INFO: This is an info message"
    );
    assert_eq!(script_log_line(PyLogLevel::Warn, "t", " \t "), "t <LUA>    WARN: ");
    assert_eq!(script_log_line(PyLogLevel::Error, "t", "a  b"), "t <LUA>    ERROR: a  b");
    assert_eq!(script_line_of(PyLogLevel::Error, "t", " kept "), "t <LUA>    ERROR:  kept ");
}

#[test]
fn lines_of_a_runtime_show_its_thread_and_are_trimmed() {
    assert_eq!(
        thread_log_line(PyLogLevel::Info, "t", "login-2", "  ready \n"),
        "\x1b[38;5;102mt\x1b[39m \x1b[1m\x1b[92m INFO\x1b[39m\x1b[0m \x1b[38;5;102mlogin-2\x1b[39m\x1b[38;5;102m:\x1b[39m ready"
    );
    assert_eq!(
        thread_line_of(PyLogLevel::Fatal, "", "", " kept "),
        "\x1b[38;5;102m\x1b[39m \x1b[1m\x1b[91mFATAL\x1b[39m\x1b[0m \x1b[38;5;102m\x1b[39m\x1b[38;5;102m:\x1b[39m  kept "
    );
}
