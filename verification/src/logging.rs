//! Log levels, and the state that logging keeps.

use vstd::prelude::*;
use crate::numeral::radix_text;
use crate::numeral::render_u64;
use crate::text::string_of;

verus! {

/// How much a message matters; a level of lower rank matters more.
#[derive(Clone, Copy, Debug, PartialEq, Eq)]
pub enum LogLevel {
    Always,
    Error,
    Warn,
    Info,
    Debug,
}

impl LogLevel {
    /// The rank of the level, from 0 for `Always` to 4 for `Debug`.
    pub open spec fn rank(self) -> nat {
        match self {
            LogLevel::Always => 0,
            LogLevel::Error => 1,
            LogLevel::Warn => 2,
            LogLevel::Info => 3,
            LogLevel::Debug => 4,
        }
    }

    /// The name of the level as it stands in a log line.
    pub open spec fn name(self) -> Seq<char> {
        match self {
            LogLevel::Always => "ALWAYS"@,
            LogLevel::Error => "ERROR"@,
            LogLevel::Warn => "WARN"@,
            LogLevel::Info => "INFO"@,
            LogLevel::Debug => "DEBUG"@,
        }
    }

    /// The escape sequence that colours a log line of the level.
    pub open spec fn color(self) -> Seq<char> {
        match self {
            LogLevel::Always => "\x1b[1;37m"@,
            LogLevel::Error => "\x1b[31m"@,
            LogLevel::Warn => "\x1b[33m"@,
            LogLevel::Info => "\x1b[32m"@,
            LogLevel::Debug => "\x1b[36m"@,
        }
    }

    /// The rank of the level as a number.
    pub fn severity(&self) -> (rank: u8)
        ensures
            rank == self.rank(),
    {
        match self {
            LogLevel::Always => 0,
            LogLevel::Error => 1,
            LogLevel::Warn => 2,
            LogLevel::Info => 3,
            LogLevel::Debug => 4,
        }
    }

    /// The name of the level.
    pub fn as_str(&self) -> (name: &'static str)
        ensures
            name@ == self.name(),
    {
        match self {
            LogLevel::Always => "ALWAYS",
            LogLevel::Error => "ERROR",
            LogLevel::Warn => "WARN",
            LogLevel::Info => "INFO",
            LogLevel::Debug => "DEBUG",
        }
    }

    /// The escape sequence that colours a log line of the level.
    pub fn color_code(&self) -> (code: &'static str)
        ensures
            code@ == self.color(),
    {
        match self {
            LogLevel::Always => "\x1b[1;37m",
            LogLevel::Error => "\x1b[31m",
            LogLevel::Warn => "\x1b[33m",
            LogLevel::Info => "\x1b[32m",
            LogLevel::Debug => "\x1b[36m",
        }
    }
}

/// The line that reports a message: the colour of the level, its name in brackets, the
/// place that the message comes from, the message, and the end of the colour.
pub open spec fn log_line(level: LogLevel, message: Seq<char>, file: Seq<char>, line: u32) -> Seq<
    char,
> {
    level.color() + "["@ + level.name() + "] "@ + file + ":"@ + radix_text(line as nat, 10, false)
        + " - "@ + message + "\x1b[0m"@
}

/// The state of logging: the level up to which messages are shown, whether that level
/// has been set, and whether an error has been reported.
#[derive(Debug, PartialEq, Eq)]
pub struct Logger {
    pub level: LogLevel,
    pub initialized: bool,
    pub error_occurred: bool,
}

impl Logger {
    /// The state before anything was set or reported: messages are shown up to `Info`.
    pub fn new() -> (logger: Logger)
        ensures
            logger.level == LogLevel::Info,
            !logger.initialized,
            !logger.error_occurred,
    {
        Logger { level: LogLevel::Info, initialized: false, error_occurred: false }
    }

    /// Sets the level. Only the first call counts.
    pub fn init(&mut self, level: LogLevel)
        ensures
            final(self).initialized,
            final(self).error_occurred == old(self).error_occurred,
            final(self).level == if old(self).initialized {
                old(self).level
            } else {
                level
            },
    {
        if !self.initialized {
            self.level = level;
            self.initialized = true;
        }
    }

    /// Whether a message of this level is shown.
    pub open spec fn shows(self, level: LogLevel) -> bool {
        level.rank() <= self.level.rank()
    }

    /// Tells whether a message of this level is shown.
    pub fn should_log(&self, level: LogLevel) -> (shown: bool)
        ensures
            shown == self.shows(level),
    {
        level.severity() <= self.level.severity()
    }

    /// Takes note of a message and gives the line to print for it, if it is shown. A
    /// message of the level `Error` counts as an error whether it is shown or not.
    pub fn log_message(&mut self, level: LogLevel, message: &str, file: &str, line: u32) -> (printed:
        Option<String>)
        ensures
            final(self).level == old(self).level,
            final(self).initialized == old(self).initialized,
            final(self).error_occurred == (old(self).error_occurred || level is Error),
            match printed {
                Some(text) => old(self).shows(level) && text@ == log_line(
                    level,
                    message@,
                    file@,
                    line,
                ),
                None => !old(self).shows(level),
            },
    {
        let printed = if self.should_log(level) {
            let mut text = String::new();
            text.append(level.color_code());
            text.append("[");
            text.append(level.as_str());
            text.append("] ");
            text.append(file);
            text.append(":");
            let number = string_of(&render_u64(line as u64, 10, false));
            text.append(number.as_str());
            text.append(" - ");
            text.append(message);
            text.append("\x1b[0m");
            assert(text@ =~= log_line(level, message@, file@, line));
            Some(text)
        } else {
            None
        };
        match level {
            LogLevel::Error => {
                self.error_occurred = true;
            },
            _ => {},
        }
        printed
    }

    /// Tells whether an error has been reported.
    pub fn has_error_occurred(&self) -> (occurred: bool)
        ensures
            occurred == self.error_occurred,
    {
        self.error_occurred
    }

    /// The exit code of the program: 1 if an error was reported, else 0.
    pub fn exit_code(&self) -> (code: i32)
        ensures
            code == if self.error_occurred {
                1i32
            } else {
                0i32
            },
    {
        if self.has_error_occurred() {
            1
        } else {
            0
        }
    }
}

/// Sets the level of a logger at the start of a program: the level that was chosen, or
/// the configured one where none was chosen.
pub fn setup_logging(logger: &mut Logger, chosen: Option<LogLevel>, configured: LogLevel)
    ensures
        final(logger).initialized,
        final(logger).error_occurred == old(logger).error_occurred,
        final(logger).level == if old(logger).initialized {
            old(logger).level
        } else {
            match chosen {
                Some(level) => level,
                None => configured,
            }
        },
{
    let level = match chosen {
        Some(level) => level,
        None => configured,
    };
    logger.init(level);
}

} // verus!
