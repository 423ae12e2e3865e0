//! Log levels, the logger's configuration, and the line that a message
//! becomes. Reading the clock and printing are left to the caller.

use crate::text::{text_view, trim, trimmed};
use owo_colors::{AnsiColors, DynColors, OwoColorize, XtermColors};
use vstd::prelude::*;

verus! {

/// How much a message matters.
#[derive(Clone, Copy, Debug, PartialEq, Eq, Structural)]
pub enum PyLogLevel {
    Debug,
    Info,
    Warn,
    Error,
    Fatal,
}

/// A colour of the terminal.
#[derive(Clone, Copy, Debug, PartialEq, Eq, Structural)]
pub enum Tint {
    Blue,
    Green,
    Yellow,
    Red,
    BrightRed,
    BrightGreen,
    BrightYellow,
    BrightCyan,
    DarkGray,
}

impl Tint {
    /// The escape sequence that switches the foreground to this colour.
    pub open spec fn escape(self) -> Seq<char> {
        match self {
            Tint::Blue => "\x1b[34m"@,
            Tint::Green => "\x1b[32m"@,
            Tint::Yellow => "\x1b[33m"@,
            Tint::Red => "\x1b[31m"@,
            Tint::BrightRed => "\x1b[91m"@,
            Tint::BrightGreen => "\x1b[92m"@,
            Tint::BrightYellow => "\x1b[93m"@,
            Tint::BrightCyan => "\x1b[96m"@,
            Tint::DarkGray => "\x1b[38;5;102m"@,
        }
    }
}

/// The escape sequence that switches the foreground back to its default.
pub open spec fn reset() -> Seq<char> {
    "\x1b[39m"@
}

/// `text` in the colour `tint`, for a terminal.
pub open spec fn painted(text: Seq<char>, tint: Tint) -> Seq<char> {
    tint.escape() + text + reset()
}

/// `owo_colors::OwoColorize::color`, displayed: the text between the escape
/// sequence of the colour and the one that resets the foreground.
#[verifier::external_body]
fn paint(text: &str, tint: Tint) -> (r: String)
    ensures
        r@ == painted(text@, tint),
{
    let color = match tint {
        Tint::Blue => DynColors::Ansi(AnsiColors::Blue),
        Tint::Green => DynColors::Ansi(AnsiColors::Green),
        Tint::Yellow => DynColors::Ansi(AnsiColors::Yellow),
        Tint::Red => DynColors::Ansi(AnsiColors::Red),
        Tint::BrightRed => DynColors::Ansi(AnsiColors::BrightRed),
        Tint::BrightGreen => DynColors::Ansi(AnsiColors::BrightGreen),
        Tint::BrightYellow => DynColors::Ansi(AnsiColors::BrightYellow),
        Tint::BrightCyan => DynColors::Ansi(AnsiColors::BrightCyan),
        Tint::DarkGray => DynColors::Xterm(XtermColors::DarkGray),
    };
    format!("{}", OwoColorize::color(&text, color))
}

/// `text` in bold, for a terminal.
pub open spec fn bold(text: Seq<char>) -> Seq<char> {
    "\x1b[1m"@ + text + "\x1b[0m"@
}

/// `owo_colors::OwoColorize::bold`, displayed: the text between the escape
/// sequence for bold and the one that resets all styles.
#[verifier::external_body]
fn embolden(text: &str) -> (r: String)
    ensures
        r@ == bold(text@),
{
    format!("{}", OwoColorize::bold(&text))
}

impl PyLogLevel {
    /// The place of the level among the levels, from 0 for debug.
    pub open spec fn rank(self) -> nat {
        match self {
            PyLogLevel::Debug => 0,
            PyLogLevel::Info => 1,
            PyLogLevel::Warn => 2,
            PyLogLevel::Error => 3,
            PyLogLevel::Fatal => 4,
        }
    }

    /// Whether a logger set to this level lets a message of level `other`
    /// through: it does where `other` matters at least as much, but a
    /// logger set to fatal lets nothing through.
    pub open spec fn spec_less_than(&self, other: &PyLogLevel) -> bool {
        !(*self is Fatal) && self.rank() <= other.rank()
    }

    /// Computes [`Self::spec_less_than`].
    #[verifier::when_used_as_spec(spec_less_than)]
    pub fn less_than(&self, other: &PyLogLevel) -> (r: bool)
        ensures
            r == self.spec_less_than(other),
    {
        match (self, other) {
            (PyLogLevel::Debug, _) => true,
            (PyLogLevel::Info, PyLogLevel::Debug) => false,
            (PyLogLevel::Info, _) => true,
            (PyLogLevel::Warn, PyLogLevel::Debug) => false,
            (PyLogLevel::Warn, PyLogLevel::Info) => false,
            (PyLogLevel::Warn, _) => true,
            (PyLogLevel::Error, PyLogLevel::Error) => true,
            (PyLogLevel::Error, PyLogLevel::Fatal) => true,
            (PyLogLevel::Error, _) => false,
            (PyLogLevel::Fatal, _) => false,
        }
    }

    /// The name of the level, in capitals.
    pub open spec fn name(self) -> Seq<char> {
        match self {
            PyLogLevel::Debug => "DEBUG"@,
            PyLogLevel::Info => "INFO"@,
            PyLogLevel::Warn => "WARN"@,
            PyLogLevel::Error => "ERROR"@,
            PyLogLevel::Fatal => "FATAL"@,
        }
    }

    /// The colour that the level is shown in.
    pub open spec fn tint(self) -> Tint {
        match self {
            PyLogLevel::Debug => Tint::Blue,
            PyLogLevel::Info => Tint::Green,
            PyLogLevel::Warn => Tint::Yellow,
            PyLogLevel::Error => Tint::Red,
            PyLogLevel::Fatal => Tint::BrightRed,
        }
    }

    /// The level as it stands in a log line.
    pub open spec fn spec_format(self, use_color: bool) -> Seq<char> {
        if use_color {
            painted(self.name(), self.tint())
        } else {
            self.name()
        }
    }

    /// The name of the level, in its colour where `use_color` is set.
    pub fn format(&self, use_color: bool) -> (r: String)
        ensures
            r@ == self.spec_format(use_color),
    {
        let (name, tint) = match self {
            PyLogLevel::Debug => ("DEBUG", Tint::Blue),
            PyLogLevel::Info => ("INFO", Tint::Green),
            PyLogLevel::Warn => ("WARN", Tint::Yellow),
            PyLogLevel::Error => ("ERROR", Tint::Red),
            PyLogLevel::Fatal => ("FATAL", Tint::BrightRed),
        };
        if use_color {
            paint(name, tint)
        } else {
            String::from_str(name)
        }
    }
}

/// The format in which a logger writes the time, unless told otherwise.
pub const DEFAULT_DATETIME_FORMAT: &'static str = "%Y-%m-%d %H:%M:%S";

/// How the logger writes.
#[derive(Debug, Clone, PartialEq, Eq)]
pub struct PyLoggerConfig {
    pub use_colors: bool,
    /// Messages that matter less than this are dropped.
    pub level: PyLogLevel,
    /// The format of the time in front of each line.
    pub datetime_format: String,
    /// What runs at the moment, shown after the level.
    pub context: Option<String>,
}

impl Default for PyLoggerConfig {
    /// Colours on, level info, no context.
    fn default() -> (r: Self)
        ensures
            r.use_colors,
            r.level == PyLogLevel::Info,
            r.datetime_format@ == DEFAULT_DATETIME_FORMAT@,
            r.context is None,
    {
        PyLoggerConfig {
            use_colors: true,
            level: PyLogLevel::Info,
            datetime_format: String::from_str(DEFAULT_DATETIME_FORMAT),
            context: None,
        }
    }
}

impl PyLoggerConfig {
    /// Names what runs from now on.
    pub fn set_context(&mut self, context: String)
        ensures
            final(self).context == Some(context),
            final(self).use_colors == old(self).use_colors,
            final(self).level == old(self).level,
            final(self).datetime_format == old(self).datetime_format,
    {
        self.context = Some(context);
    }

    /// Nothing in particular runs from now on.
    pub fn clear_context(&mut self)
        ensures
            final(self).context is None,
            final(self).use_colors == old(self).use_colors,
            final(self).level == old(self).level,
            final(self).datetime_format == old(self).datetime_format,
    {
        self.context = None;
    }
}

/// The context as it stands in a log line: after a blank, or nothing.
pub open spec fn context_part(context: Option<Seq<char>>) -> Seq<char> {
    match context {
        Some(name) => " "@ + name,
        None => Seq::empty(),
    }
}

/// The line that a message becomes: time, level, context, a colon and the
/// message. With colours, all but the message is coloured, the level in its
/// own colour and the rest in gray.
pub open spec fn log_line(
    use_colors: bool,
    timestamp: Seq<char>,
    level: PyLogLevel,
    context: Option<Seq<char>>,
    msg: Seq<char>,
) -> Seq<char> {
    if use_colors {
        painted(timestamp, Tint::DarkGray) + " "@ + level.spec_format(true) + painted(
            context_part(context),
            Tint::DarkGray,
        ) + painted(":"@, Tint::DarkGray) + " "@ + msg
    } else {
        timestamp + " "@ + level.spec_format(false) + context_part(context) + ": "@ + msg
    }
}

/// The line for `msg` at `level`, written at the time `timestamp`, which the
/// caller has formatted as `config.datetime_format` asks.
pub fn format_log(config: &PyLoggerConfig, level: PyLogLevel, msg: &str, timestamp: &str) -> (r:
    String)
    ensures
        r@ == log_line(config.use_colors, timestamp@, level, text_view(config.context), msg@),
{
    let mut context = String::new();
    match &config.context {
        Some(name) => {
            context.append(" ");
            context.append(name.as_str());
        },
        None => {},
    }
    assert(context@ =~= context_part(text_view(config.context)));
    let mut line = String::new();
    if config.use_colors {
        line.append(paint(timestamp, Tint::DarkGray).as_str());
        line.append(" ");
        line.append(level.format(true).as_str());
        line.append(paint(context.as_str(), Tint::DarkGray).as_str());
        line.append(paint(":", Tint::DarkGray).as_str());
        line.append(" ");
        line.append(msg);
    } else {
        line.append(timestamp);
        line.append(" ");
        line.append(level.format(false).as_str());
        line.append(context.as_str());
        line.append(": ");
        line.append(msg);
    }
    assert(line@ =~= log_line(
        config.use_colors,
        timestamp@,
        level,
        text_view(config.context),
        msg@,
    ));
    line
}

/// What is done with a message.
#[derive(Debug, Clone, PartialEq, Eq)]
pub enum LogAction {
    /// Nothing: the logger is set to drop it.
    Skip,
    /// Print this line.
    Print(String),
    /// Print this line, then end the process with exit code 1.
    PrintAndExit(String),
}

/// What is done with `msg` at `level`: it is dropped where the logger's
/// level does not let it through, else printed; after a fatal message the
/// process ends.
pub fn log(config: &PyLoggerConfig, level: PyLogLevel, msg: &str, timestamp: &str) -> (r:
    LogAction)
    ensures
        match r {
            LogAction::Skip => !config.level.spec_less_than(&level),
            LogAction::Print(line) => config.level.spec_less_than(&level) && !(level is Fatal)
                && line@ == log_line(
                config.use_colors,
                timestamp@,
                level,
                text_view(config.context),
                msg@,
            ),
            LogAction::PrintAndExit(line) => config.level.spec_less_than(&level) && level
                is Fatal && line@ == log_line(
                config.use_colors,
                timestamp@,
                level,
                text_view(config.context),
                msg@,
            ),
        },
{
    if !config.level.less_than(&level) {
        return LogAction::Skip;
    }
    let line = format_log(config, level, msg, timestamp);
    match level {
        PyLogLevel::Fatal => LogAction::PrintAndExit(line),
        _ => LogAction::Print(line),
    }
}

/// What marks a line as written by a script.
pub const SCRIPT_MARK: &'static str = "<LUA>";

/// The line that a message of a script becomes once its whitespace has
/// been cut off at both ends: time, mark, level, a colon and the message.
pub open spec fn script_line(timestamp: Seq<char>, level: PyLogLevel, msg: Seq<char>) -> Seq<
    char,
> {
    timestamp + " "@ + SCRIPT_MARK@ + "    "@ + level.name() + ": "@ + msg
}

/// The line for a message that needs no more trimming: see
/// [`script_line`].
pub fn script_line_of(level: PyLogLevel, timestamp: &str, msg: &str) -> (r: String)
    ensures
        r@ == script_line(timestamp@, level, msg@),
{
    let mut line = String::from_str(timestamp);
    line.append(" ");
    line.append(SCRIPT_MARK);
    line.append("    ");
    line.append(level.format(false).as_str());
    line.append(": ");
    line.append(msg);
    assert(line@ =~= script_line(timestamp@, level, msg@));
    line
}

/// The line for the message `msg` that a script logs at `level`, written
/// at the time `timestamp`. Whitespace around the message is cut off.
pub fn script_log_line(level: PyLogLevel, timestamp: &str, msg: &str) -> (r: String)
    ensures
        r@ == script_line(timestamp@, level, trimmed(msg@)),
{
    let message = trim(msg);
    script_line_of(level, timestamp, message.as_str())
}

impl PyLogLevel {
    /// The name of the level as a runtime shows it: five characters wide.
    pub open spec fn label(self) -> Seq<char> {
        match self {
            PyLogLevel::Debug => "DEBUG"@,
            PyLogLevel::Info => " INFO"@,
            PyLogLevel::Warn => " WARN"@,
            PyLogLevel::Error => "ERROR"@,
            PyLogLevel::Fatal => "FATAL"@,
        }
    }

    /// The colour that a runtime shows the level in.
    pub open spec fn bright(self) -> Tint {
        match self {
            PyLogLevel::Debug => Tint::BrightCyan,
            PyLogLevel::Info => Tint::BrightGreen,
            PyLogLevel::Warn => Tint::BrightYellow,
            PyLogLevel::Error => Tint::BrightRed,
            PyLogLevel::Fatal => Tint::BrightRed,
        }
    }
}

/// The line that a message of a script becomes in a runtime that logs under
/// `thread`, once the whitespace of the message has been cut off at both
/// ends: the time in gray, the level in its bright colour and bold, the
/// name of the thread and a colon in gray, and the message.
pub open spec fn thread_line(
    timestamp: Seq<char>,
    level: PyLogLevel,
    thread: Seq<char>,
    msg: Seq<char>,
) -> Seq<char> {
    painted(timestamp, Tint::DarkGray) + " "@ + bold(painted(level.label(), level.bright())) + " "@
        + painted(thread, Tint::DarkGray) + painted(":"@, Tint::DarkGray) + " "@ + msg
}

/// The line for a message that needs no more trimming: see
/// [`thread_line`].
pub fn thread_line_of(level: PyLogLevel, timestamp: &str, thread: &str, msg: &str) -> (r: String)
    ensures
        r@ == thread_line(timestamp@, level, thread@, msg@),
{
    let (label, tint) = match level {
        PyLogLevel::Debug => ("DEBUG", Tint::BrightCyan),
        PyLogLevel::Info => (" INFO", Tint::BrightGreen),
        PyLogLevel::Warn => (" WARN", Tint::BrightYellow),
        PyLogLevel::Error => ("ERROR", Tint::BrightRed),
        PyLogLevel::Fatal => ("FATAL", Tint::BrightRed),
    };
    let mut line = paint(timestamp, Tint::DarkGray);
    line.append(" ");
    line.append(embolden(paint(label, tint).as_str()).as_str());
    line.append(" ");
    line.append(paint(thread, Tint::DarkGray).as_str());
    line.append(paint(":", Tint::DarkGray).as_str());
    line.append(" ");
    line.append(msg);
    assert(line@ =~= thread_line(timestamp@, level, thread@, msg@));
    line
}

/// The line for the message `msg` that a script logs at `level` in a
/// runtime that logs under `thread`, written at the time `timestamp`.
/// Whitespace around the message is cut off.
pub fn thread_log_line(level: PyLogLevel, timestamp: &str, thread: &str, msg: &str) -> (r: String)
    ensures
        r@ == thread_line(timestamp@, level, thread@, trimmed(msg@)),
{
    let message = trim(msg);
    thread_line_of(level, timestamp, thread, message.as_str())
}

} // verus!
