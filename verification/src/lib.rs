//! Log sinks with daily rolling files and hierarchical target filtering.

pub mod clock;
pub mod console;
pub mod filter;
pub mod rolling;
pub mod settings;
pub mod string_specs;

pub use clock::LocalTime;
pub use console::{ConsoleAppender, Level, PlainConsoleAppender};
pub use filter::{parse_filter_config, FilterResponse, TargetFilter};
pub use rolling::{RollError, RollingFileAppender};
pub use settings::{Console, Settings};
