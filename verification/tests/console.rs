use mlzlog::{ConsoleAppender, Level, LocalTime, PlainConsoleAppender};

#[test]
fn plain_line_for_each_level() {
    let con = PlainConsoleAppender::new("[app] ");
    assert_eq!(con.line("[12:00:00]", "", Level::Error, "boom"), "[12:00:00] [app] ERROR: boom");
    assert_eq!(con.line("[12:00:00]", "", Level::Warn, "hm"), "[12:00:00] [app] WARNING: hm");
    assert_eq!(con.line("[12:00:00]", "", Level::Info, "fine"), "[12:00:00] [app] fine");
    assert_eq!(con.line("[12:00:00]", "", Level::Debug, "x=1"), "[12:00:00] [app] DEBUG: x=1");
    assert_eq!(con.line("[12:00:00]", "", Level::Trace, "in"), "[12:00:00] [app] in");
}

#[test]
fn plain_line_with_thread_tag() {
    let con = PlainConsoleAppender::new("[app] ");
    assert_eq!(
        con.line("[01:02:03]", "worker-1: ", Level::Warn, "late"),
        "[01:02:03] [app] worker-1: WARNING: late"
    );
    let bare = PlainConsoleAppender::default();
    assert_eq!(bare.line("[01:02:03]", "t ", Level::Info, "m"), "[01:02:03] t m");
    assert_eq!(bare.line("", "", Level::Info, ""), " ");
}

#[test]
fn coloured_line_for_each_level() {
    let con = ConsoleAppender::new("[app] ");
    let time = "\x1B[37m[12:00:00]\x1B[0m ";
    assert_eq!(
        con.line("[12:00:00]", "", Level::Error, "boom"),
        format!("{time}\x1B[1;31m[app] ERROR: boom\x1B[0m")
    );
    assert_eq!(
        con.line("[12:00:00]", "", Level::Warn, "hm"),
        format!("{time}\x1B[35m[app] WARNING: hm\x1B[0m")
    );
    assert_eq!(con.line("[12:00:00]", "", Level::Info, "fine"), format!("{time}[app] fine"));
    assert_eq!(
        con.line("[12:00:00]", "", Level::Debug, "x=1"),
        format!("{time}\x1B[37m[app] x=1\x1B[0m")
    );
    assert_eq!(con.line("[12:00:00]", "", Level::Trace, "in"), format!("{time}[app] in"));
}

#[test]
fn coloured_line_with_thread_tag() {
    let con = ConsoleAppender::default();
    assert_eq!(
        con.line("[01:02:03]", "io: ", Level::Error, "gone"),
        "\x1B[37m[01:02:03]\x1B[0m \x1B[1;31mio: ERROR: gone\x1B[0m"
    );
    assert_eq!(con.line("", "", Level::Info, ""), "\x1B[37m\x1B[0m ");
}

#[test]
fn lines_at_a_given_time() {
    let now = LocalTime { timestamp: 1_700_000_000, offset: 3600 };
    let plain = PlainConsoleAppender::new("p ");
    assert_eq!(
        plain.append_at(now, "t ", Level::Debug, "m"),
        Some("[23:13:20] p t DEBUG: m".to_string())
    );
    let con = ConsoleAppender::new("p ");
    assert_eq!(
        con.append_at(now, "t ", Level::Warn, "m"),
        Some("\x1B[37m[23:13:20]\x1B[0m \x1B[35mp t WARNING: m\x1B[0m".to_string())
    );
    let never = LocalTime { timestamp: i64::MIN, offset: 0 };
    assert_eq!(plain.append_at(never, "", Level::Info, "m"), None);
    assert_eq!(con.append_at(never, "", Level::Info, "m"), None);
}

#[test]
fn lines_at_the_current_time() {
    let plain = PlainConsoleAppender::new("p ");
    if let Some(line) = plain.append("t ", Level::Error, "m") {
        assert_eq!(line.len(), "[00:00:00] p t ERROR: m".len());
        assert!(line.starts_with('['));
        assert!(line.ends_with("] p t ERROR: m"));
    }
    let con = ConsoleAppender::new("p ");
    if let Some(line) = con.append("t ", Level::Info, "m") {
        assert!(line.starts_with("\x1B[37m["));
        assert!(line.ends_with("]\x1B[0m p t m"));
    }
}
