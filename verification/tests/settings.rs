use mlzlog::settings::log_path;
use mlzlog::{Console, Level, Settings};

#[test]
fn default_settings() {
    let s = Settings::default();
    assert!(s.show_appname);
    assert!(!s.debug);
    assert!(s.use_stdout);
    assert!(s.stdout_color);
    assert!(!s.use_journal);
}

#[test]
fn settings_with_one_change() {
    let s = Settings { debug: true, ..Settings::default() };
    assert_eq!(s, Settings {
        show_appname: true,
        debug: true,
        use_stdout: true,
        stdout_color: true,
        use_journal: false,
    });
}

#[test]
fn root_level_follows_debug() {
    assert_eq!(Settings::default().root_level(), Level::Info);
    assert_eq!(Settings { debug: true, ..Settings::default() }.root_level(), Level::Debug);
}

#[test]
fn console_prefix_shows_the_name_of_the_program() {
    assert_eq!(Settings::default().console_prefix("testapp"), "[testapp] ");
    assert_eq!(Settings::default().console_prefix(""), "[] ");
    let hidden = Settings { show_appname: false, ..Settings::default() };
    assert_eq!(hidden.console_prefix("testapp"), "");
}

#[test]
fn environment_overrides_the_log_path() {
    let asked = || Some("log".to_string());
    assert_eq!(log_path(asked(), None), Some("log".to_string()));
    assert_eq!(log_path(asked(), Some("/var/log".to_string())), Some("/var/log".to_string()));
    assert_eq!(log_path(asked(), Some(String::new())), None);
    assert_eq!(log_path(None, None), None);
    assert_eq!(log_path(None, Some("x".to_string())), Some("x".to_string()));
    assert_eq!(log_path(None, Some(String::new())), None);
}

#[test]
fn console_follows_the_settings() {
    let time = "[12:00:00]";
    match Settings::default().console("app") {
        Some(Console::Coloured(con)) => assert_eq!(
            con.line(time, "", Level::Warn, "m"),
            "\x1B[37m[12:00:00]\x1B[0m \x1B[35m[app] WARNING: m\x1B[0m"
        ),
        other => panic!("not the coloured console: {other:?}"),
    }
    let plain = Settings { stdout_color: false, show_appname: false, ..Settings::default() };
    match plain.console("app") {
        Some(Console::Plain(con)) => {
            assert_eq!(con.line(time, "", Level::Warn, "m"), "[12:00:00] WARNING: m")
        }
        other => panic!("not the plain console: {other:?}"),
    }
    let silent = Settings { use_stdout: false, ..Settings::default() };
    assert!(silent.console("app").is_none());
    let silent = Settings { use_stdout: false, stdout_color: false, ..Settings::default() };
    assert!(silent.console("app").is_none());
}
