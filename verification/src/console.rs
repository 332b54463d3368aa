//! The lines that go to the console, coloured or plain.
//!
//! The appenders here make a line of text for a record. They print
//! nothing: their owner writes the line to the terminal.

use crate::clock::{format_time, local_now, time_text, LocalTime};
use ansi_term::Colour::{Purple, Red, White};
use ansi_term::Style;
use vstd::prelude::*;

verus! {

/// How severe a record is.
#[derive(Clone, Copy, Debug, PartialEq, Eq, Structural)]
pub enum Level {
    Error,
    Warn,
    Info,
    Debug,
    Trace,
}

/// The ways in which a text is painted.
#[derive(Clone, Copy, Debug, PartialEq, Eq, Structural)]
pub enum Tint {
    /// Bold red.
    RedBold,
    Purple,
    White,
    /// As it is, without any code.
    Plain,
}

/// A text between the terminal codes that paint it.
pub open spec fn painted(tint: Tint, text: Seq<char>) -> Seq<char> {
    match tint {
        Tint::RedBold => "\x1B[1;31m"@ + text + "\x1B[0m"@,
        Tint::Purple => "\x1B[35m"@ + text + "\x1B[0m"@,
        Tint::White => "\x1B[37m"@ + text + "\x1B[0m"@,
        Tint::Plain => text,
    }
}

/// `Style::paint`, written out as a string: the text after the code of the
/// style and before the code that resets it, or the text alone for the
/// style without properties. The styles are `Red.bold()`, `Purple.normal()`,
/// `White.normal()` and `Style::new()`.
#[verifier::external_body]
pub(crate) fn paint(tint: Tint, text: &str) -> (out: String)
    ensures
        out@ == painted(tint, text@),
{
    let style = match tint {
        Tint::RedBold => Red.bold(),
        Tint::Purple => Purple.normal(),
        Tint::White => White.normal(),
        Tint::Plain => Style::new(),
    };
    style.paint(text).to_string()
}

/// The tint of a record on the coloured console.
pub open spec fn tint_of(level: Level) -> Tint {
    match level {
        Level::Error => Tint::RedBold,
        Level::Warn => Tint::Purple,
        Level::Debug => Tint::White,
        _ => Tint::Plain,
    }
}

/// The word before the message on the coloured console.
pub open spec fn coloured_label(level: Level) -> Seq<char> {
    match level {
        Level::Error => "ERROR: "@,
        Level::Warn => "WARNING: "@,
        _ => ""@,
    }
}

/// The word before the message on the plain console.
pub open spec fn plain_label(level: Level) -> Seq<char> {
    match level {
        Level::Error => "ERROR: "@,
        Level::Warn => "WARNING: "@,
        Level::Debug => "DEBUG: "@,
        _ => ""@,
    }
}

/// The line of a record on the coloured console: the time in white, a
/// space, and in the tint of the level the prefix, the tag of the thread,
/// the label and the message.
pub open spec fn coloured_line(
    prefix: Seq<char>,
    time: Seq<char>,
    thread: Seq<char>,
    level: Level,
    message: Seq<char>,
) -> Seq<char> {
    painted(Tint::White, time) + " "@ + painted(
        tint_of(level),
        prefix + thread + coloured_label(level) + message,
    )
}

/// The line of a record on the plain console: the time, a space, the
/// prefix, the tag of the thread, the label and the message.
pub open spec fn plain_line(
    prefix: Seq<char>,
    time: Seq<char>,
    thread: Seq<char>,
    level: Level,
    message: Seq<char>,
) -> Seq<char> {
    time + " "@ + prefix + thread + plain_label(level) + message
}

/// Makes coloured lines for the console.
#[derive(Debug)]
pub struct ConsoleAppender {
    prefix: String,
}

impl View for ConsoleAppender {
    type V = Seq<char>;

    /// The prefix of each message.
    closed spec fn view(&self) -> Seq<char> {
        self.prefix@
    }
}

impl ConsoleAppender {
    pub fn new(prefix: &str) -> (appender: ConsoleAppender)
        ensures
            appender@ == prefix@,
    {
        ConsoleAppender { prefix: String::from_str(prefix) }
    }

    /// The line of a record, with `time` as the text of its time.
    pub fn line(&self, time: &str, thread: &str, level: Level, message: &str) -> (line: String)
        ensures
            line@ == coloured_line(self@, time@, thread@, level, message@),
    {
        let mut body = self.prefix.clone();
        body.append(thread);
        let tint = match level {
            Level::Error => {
                body.append("ERROR: ");
                Tint::RedBold
            },
            Level::Warn => {
                body.append("WARNING: ");
                Tint::Purple
            },
            Level::Debug => Tint::White,
            _ => Tint::Plain,
        };
        proof {
            reveal_strlit("");
            assert(body@ =~= self@ + thread@ + coloured_label(level));
        }
        body.append(message);
        let mut line = paint(Tint::White, time);
        line.append(" ");
        line.append(paint(tint, body.as_str()).as_str());
        line
    }

    /// The line of a record at `now`, where the time can be written.
    pub fn append_at(&self, now: LocalTime, thread: &str, level: Level, message: &str) -> (line:
        Option<String>)
        ensures
            line is Some == time_text(now) is Some,
            line matches Some(l) ==> l@ == coloured_line(
                self@,
                time_text(now).unwrap(),
                thread@,
                level,
                message@,
            ),
    {
        match format_time(now) {
            Some(time) => Some(self.line(time.as_str(), thread, level, message)),
            None => None,
        }
    }

    /// The line of a record at the current local time, where that can be
    /// found out and written.
    pub fn append(&self, thread: &str, level: Level, message: &str) -> (line: Option<String>)
        ensures
            line matches Some(l) ==> exists|now: LocalTime|
                #[trigger] time_text(now) is Some && l@ == coloured_line(
                    self@,
                    time_text(now).unwrap(),
                    thread@,
                    level,
                    message@,
                ),
    {
        match local_now() {
            Some(now) => self.append_at(now, thread, level, message),
            None => None,
        }
    }
}

impl Default for ConsoleAppender {
    fn default() -> (appender: ConsoleAppender)
        ensures
            appender@ == Seq::<char>::empty(),
    {
        ConsoleAppender { prefix: String::new() }
    }
}

/// Makes lines without colour for the console.
#[derive(Debug)]
pub struct PlainConsoleAppender {
    prefix: String,
}

impl View for PlainConsoleAppender {
    type V = Seq<char>;

    /// The prefix of each message.
    closed spec fn view(&self) -> Seq<char> {
        self.prefix@
    }
}

impl PlainConsoleAppender {
    pub fn new(prefix: &str) -> (appender: PlainConsoleAppender)
        ensures
            appender@ == prefix@,
    {
        PlainConsoleAppender { prefix: String::from_str(prefix) }
    }

    /// The line of a record, with `time` as the text of its time.
    pub fn line(&self, time: &str, thread: &str, level: Level, message: &str) -> (line: String)
        ensures
            line@ == plain_line(self@, time@, thread@, level, message@),
    {
        let mut line = String::from_str(time);
        line.append(" ");
        line.append(self.prefix.as_str());
        line.append(thread);
        match level {
            Level::Error => {
                line.append("ERROR: ");
            },
            Level::Warn => {
                line.append("WARNING: ");
            },
            Level::Debug => {
                line.append("DEBUG: ");
            },
            _ => {},
        }
        proof {
            reveal_strlit("");
            assert(line@ =~= time@ + " "@ + self@ + thread@ + plain_label(level));
        }
        line.append(message);
        line
    }

    /// The line of a record at `now`, where the time can be written.
    pub fn append_at(&self, now: LocalTime, thread: &str, level: Level, message: &str) -> (line:
        Option<String>)
        ensures
            line is Some == time_text(now) is Some,
            line matches Some(l) ==> l@ == plain_line(
                self@,
                time_text(now).unwrap(),
                thread@,
                level,
                message@,
            ),
    {
        match format_time(now) {
            Some(time) => Some(self.line(time.as_str(), thread, level, message)),
            None => None,
        }
    }

    /// The line of a record at the current local time, where that can be
    /// found out and written.
    pub fn append(&self, thread: &str, level: Level, message: &str) -> (line: Option<String>)
        ensures
            line matches Some(l) ==> exists|now: LocalTime|
                #[trigger] time_text(now) is Some && l@ == plain_line(
                    self@,
                    time_text(now).unwrap(),
                    thread@,
                    level,
                    message@,
                ),
    {
        match local_now() {
            Some(now) => self.append_at(now, thread, level, message),
            None => None,
        }
    }
}

impl Default for PlainConsoleAppender {
    fn default() -> (appender: PlainConsoleAppender)
        ensures
            appender@ == Seq::<char>::empty(),
    {
        PlainConsoleAppender { prefix: String::new() }
    }
}

} // verus!
