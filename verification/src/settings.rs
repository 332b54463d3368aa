//! What is set up when logging starts.

use crate::console::{ConsoleAppender, Level, PlainConsoleAppender};
use vstd::prelude::*;

verus! {

/// The choices of a program for its logging.
///
/// With `show_appname` the name of the program stands before each console
/// message. With `debug` debug messages are let through. With `use_stdout`
/// messages go to the console, in colour with `stdout_color`. With
/// `use_journal` messages go to the system journal.
#[derive(Clone, Copy, Debug, PartialEq, Eq, Structural)]
pub struct Settings {
    pub show_appname: bool,
    pub debug: bool,
    pub use_stdout: bool,
    pub stdout_color: bool,
    pub use_journal: bool,
}

/// The appender of the console.
#[derive(Debug)]
pub enum Console {
    Coloured(ConsoleAppender),
    Plain(PlainConsoleAppender),
}

impl Default for Settings {
    fn default() -> (settings: Settings)
        ensures
            settings == (Settings {
                show_appname: true,
                debug: false,
                use_stdout: true,
                stdout_color: true,
                use_journal: false,
            }),
    {
        Settings {
            show_appname: true,
            debug: false,
            use_stdout: true,
            stdout_color: true,
            use_journal: false,
        }
    }
}

/// The directory of the log files: what the environment says where it says
/// anything, no directory where it says the empty text, and else what the
/// program asked for.
pub open spec fn chosen_log_path(asked: Option<Seq<char>>, env: Option<Seq<char>>) -> Option<
    Seq<char>,
> {
    match env {
        Some(path) => if path.len() == 0 {
            None
        } else {
            Some(path)
        },
        None => asked,
    }
}

/// The prefix of console messages: the name of the program in brackets
/// with a space behind, or nothing.
pub open spec fn console_prefix(appname: Seq<char>, show_appname: bool) -> Seq<char> {
    if show_appname {
        "["@ + appname + "] "@
    } else {
        Seq::empty()
    }
}

/// The directory of the log files, from what the program asked for and
/// what the environment says.
pub fn log_path(asked: Option<String>, env: Option<String>) -> (path: Option<String>)
    ensures
        path.deep_view() == chosen_log_path(asked.deep_view(), env.deep_view()),
{
    match env {
        Some(path) => if path.as_str().is_empty() {
            None
        } else {
            Some(path)
        },
        None => asked,
    }
}

impl Settings {
    /// The least severe level that is let through.
    pub fn root_level(&self) -> (level: Level)
        ensures
            level == if self.debug {
                Level::Debug
            } else {
                Level::Info
            },
    {
        if self.debug {
            Level::Debug
        } else {
            Level::Info
        }
    }

    /// The appender of the console for the program `appname`, where the
    /// console is used: coloured or plain, with the prefix of the program.
    pub fn console(&self, appname: &str) -> (console: Option<Console>)
        ensures
            match console {
                Some(Console::Coloured(appender)) => self.use_stdout && self.stdout_color
                    && appender@ == console_prefix(appname@, self.show_appname),
                Some(Console::Plain(appender)) => self.use_stdout && !self.stdout_color
                    && appender@ == console_prefix(appname@, self.show_appname),
                None => !self.use_stdout,
            },
    {
        if !self.use_stdout {
            return None;
        }
        let prefix = self.console_prefix(appname);
        if self.stdout_color {
            Some(Console::Coloured(ConsoleAppender::new(prefix.as_str())))
        } else {
            Some(Console::Plain(PlainConsoleAppender::new(prefix.as_str())))
        }
    }

    /// The prefix of console messages for the program `appname`.
    pub fn console_prefix(&self, appname: &str) -> (prefix: String)
        ensures
            prefix@ == console_prefix(appname@, self.show_appname),
    {
        if self.show_appname {
            let mut prefix = String::from_str("[");
            prefix.append(appname);
            prefix.append("] ");
            prefix
        } else {
            String::new()
        }
    }
}

} // verus!
