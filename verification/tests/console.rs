//! What the terminal shows.

use dhcpcluster::console::{
    log_error, log_string, update_state, Console, ConsoleUpdate, Level, LogOutput, Screen, HISTORY_LEN,
};
use dhcpcluster::time::Timestamp;
use dhcpcluster::toml_config::{check_extension, Error};

const SECOND: i128 = 1_000_000_000;
const CLEAR: &str = "\x1B[2J\x1B[H";

fn at(secs: i128) -> Timestamp {
    Timestamp {
        nanos: secs * SECOND,
    }
}

fn console(messages: &[&str]) -> Console {
    let mut console = Console::new(3);
    for (i, message) in messages.iter().enumerate() {
        console.push_event_at(message.to_string(), at(100 + i as i128));
    }
    console
}

fn messages(console: &Console) -> Vec<&str> {
    console.event_log.iter().map(|(_, text)| text.as_str()).collect()
}

#[test]
fn the_newest_messages_are_kept() {
    assert_eq!(messages(&console(&["a", "b"])), vec!["b", "a"]);
    assert_eq!(messages(&console(&["a", "b", "c"])), vec!["c", "b", "a"]);
    assert_eq!(
        messages(&console(&["a", "b", "c", "d"])),
        vec!["d", "c", "b"]
    );
}

#[test]
fn messages_are_stamped_with_the_clock() {
    let before = std::time::UNIX_EPOCH.elapsed().unwrap().as_nanos() as i128;
    let mut console = Console::new(3);
    console.push_event("a".to_string());
    let after = std::time::UNIX_EPOCH.elapsed().unwrap().as_nanos() as i128;
    let stamp = console.event_log[0].0.nanos;
    assert!(before <= stamp && stamp <= after);
}

#[test]
fn the_state_and_the_messages_are_rendered() {
    let console = console(&["a", "b", "c"]);
    let line = |time: &str, text: &str| format!("\x1B[90m{time:<9}:\x1B[0m {text}\n");
    assert_eq!(
        console.render(Some(10), at(99), "x\ny\n"),
        format!(
            "{CLEAR}x\ny\n{}{}{}",
            line("1.000s", "a"),
            line("2.000s", "b"),
            line("3.000s", "c")
        )
    );
    // Only the newest fit
    assert_eq!(
        console.render(Some(4), at(99), "x\ny\n"),
        format!("{CLEAR}x\ny\n{}", line("3.000s", "c"))
    );
    // Older than the start
    assert_eq!(
        console.render(Some(4), at(200), "x\ny\n"),
        format!("{CLEAR}x\ny\nc\n")
    );
}

#[test]
fn a_low_terminal_has_no_room_for_the_state() {
    let console = console(&["a", "b", "c"]);
    let notice = "Terminal height is too low! Can't show server state.\n";
    assert_eq!(
        console.render(Some(5), at(200), "1\n2\n3\n4\n5\n"),
        format!("{CLEAR}{notice}b\nc\n")
    );
    assert_eq!(
        console.render(Some(2), at(200), "1\n2\n3\n"),
        format!("{CLEAR}{notice}")
    );
    // A terminal of unknown height gets the messages alone
    assert_eq!(
        console.render(None, at(200), "1\n2\n3\n"),
        format!("{CLEAR}a\nb\nc\n")
    );
}

#[test]
fn a_screen_takes_over_changes() {
    let mut screen = Screen::new();
    assert_eq!(screen.console.history_len, HISTORY_LEN);
    screen.update(ConsoleUpdate::State("x\n".to_string()), at(1));
    screen.update(ConsoleUpdate::Log("a".to_string()), at(2));
    assert_eq!(screen.state, "x\n");
    assert_eq!(messages(&screen.console), vec!["a"]);
}

#[test]
fn levels_have_their_styles() {
    let styles = [Level::Debug, Level::Info, Level::Warning, Level::Error].map(Level::style);
    assert_eq!(styles, ["[90m", "[0m", "[33m", "[31m"]);
    assert!(!Level::Debug.is_shown(false));
    assert!(Level::Debug.is_shown(true));
    assert!(Level::Info.is_shown(false));
}

#[test]
fn messages_are_styled_line_by_line() {
    assert_eq!(
        log_string(true, "a\nb", "[33m"),
        LogOutput::Updates(vec![
            "\x1B[33ma\x1B[0m".to_string(),
            "\x1B[33mb\x1B[0m".to_string()
        ])
    );
    assert_eq!(
        log_string(false, "a\nb", "[33m"),
        LogOutput::Plain("a\nb".to_string())
    );
}

#[test]
fn the_state_goes_to_terminals_only() {
    assert_eq!(
        update_state(true, "x".to_string()),
        Some(ConsoleUpdate::State("x".to_string()))
    );
    assert_eq!(update_state(false, "x".to_string()), None);
}

#[test]
fn errors_are_logged_with_their_causes() {
    let chain = vec!["outer".to_string(), "inner".to_string()];
    assert_eq!(
        log_error(&chain),
        vec![
            ("outer".to_string(), "[31m"),
            ("Caused by: inner".to_string(), "[35m")
        ]
    );
    assert_eq!(log_error(&vec![]), vec![]);
}

#[test]
fn only_toml_files_are_loaded() {
    assert_eq!(check_extension("config.toml", Some("toml")), Ok(()));
    let refused = |path: &str| Err(Error::FileExtension(path.to_string()));
    assert_eq!(check_extension("config.txt", Some("txt")), refused("config.txt"));
    assert_eq!(check_extension("config", None), refused("config"));
}
