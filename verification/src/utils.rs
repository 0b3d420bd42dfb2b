//! Messages for the terminal: log levels, the line that a message becomes,
//! and the failures of reading a file.

use vstd::prelude::*;

use crate::paint::{is_painted, paint, Color};

verus! {

/// How serious a message is.
#[derive(Debug)]
pub enum LogLevel {
    Info,
    Warning,
    Error,
}

/// Why a file could not be loaded; each variant holds the path.
#[derive(Debug)]
pub enum UtilsErrors {
    IoOpen(String),
    IoRead(String),
}

/// The tag that a level's messages begin with.
pub open spec fn level_tag(level: LogLevel) -> Seq<char> {
    match level {
        LogLevel::Info => "[INFO]"@,
        LogLevel::Warning => "[WARNING]"@,
        LogLevel::Error => "[ERROR]"@,
    }
}

/// The colour of a level's tag.
pub open spec fn level_color(level: LogLevel) -> Color {
    match level {
        LogLevel::Info => Color::White,
        LogLevel::Warning => Color::Yellow,
        LogLevel::Error => Color::Red,
    }
}

/// A message line: the prefix, one space and the content.
pub open spec fn log_text(prefix: Seq<char>, content: Seq<char>) -> Seq<char> {
    prefix + seq![' '] + content
}

/// What a failure says: the words and the path.
pub open spec fn failure_text(e: UtilsErrors) -> Seq<char> {
    match e {
        UtilsErrors::IoOpen(path) => "Unable to open file "@ + path@,
        UtilsErrors::IoRead(path) => "Unable to read file "@ + path@,
    }
}

/// Joins a prefix and a message into one line.
pub fn log_line(prefix: &str, content: &str) -> (r: String)
    ensures
        r@ == log_text(prefix@, content@),
{
    let mut r = String::from_str(prefix);
    proof {
        reveal_strlit(" ");
    }
    r.append(" ");
    r.append(content);
    r
}

/// Formats a message: the level's tag, painted in the level's colour, one
/// space and the content.
pub fn log(level: &LogLevel, content: &str) -> (r: String)
    ensures
        exists|prefix: Seq<char>|
            is_painted(prefix, level_color(*level), level_tag(*level)) && r@ == #[trigger] log_text(
                prefix,
                content@,
            ),
{
    proof {
        reveal_strlit("[INFO]");
        reveal_strlit("[WARNING]");
        reveal_strlit("[ERROR]");
    }
    let prefix = match level {
        LogLevel::Info => paint(Color::White, "[INFO]"),
        LogLevel::Warning => paint(Color::Yellow, "[WARNING]"),
        LogLevel::Error => paint(Color::Red, "[ERROR]"),
    };
    log_line(prefix.as_str(), content)
}

impl UtilsErrors {
    /// The error line of this failure.
    pub fn to_string(&self) -> (r: String)
        ensures
            exists|prefix: Seq<char>|
                is_painted(prefix, Color::Red, level_tag(LogLevel::Error)) && r@ == #[trigger] log_text(
                    prefix,
                    failure_text(*self),
                ),
    {
        let message = match self {
            UtilsErrors::IoOpen(path) => {
                let mut m = String::from_str("Unable to open file ");
                m.append(path.as_str());
                m
            },
            UtilsErrors::IoRead(path) => {
                let mut m = String::from_str("Unable to read file ");
                m.append(path.as_str());
                m
            },
        };
        assert(message@ =~= failure_text(*self));
        log(&LogLevel::Error, message.as_str())
    }
}

} // verus!
