use voxtype_review::action::{Action, ActionOutcome};
use voxtype_review::cli::{
    diagnostic, execute, fallback_outcome, listing, mode, passes_through, source, timeout_of, Mode,
    HELP,
};
use voxtype_review::config::{defaults, parse, DEFAULT_TIMEOUT_MS};
use voxtype_review::decision::Outcome;
use voxtype_review::text::{
    is_blank, is_whitespace, join, lines, parse_unsigned, split, to_decimal, to_decimal_int, trim,
};

fn asked(args: &[&str]) -> Mode {
    mode(&args.iter().map(|a| a.to_string()).collect())
}

#[test]
fn flags_are_taken_in_order_of_importance() {
    assert_eq!(asked(&["--config-ui", "-h"]), Mode::Help);
    assert_eq!(asked(&["--unpark", "--help"]), Mode::Help);
    assert_eq!(
        asked(&["--force", "--write-default-config", "--config-ui"]),
        Mode::WriteDefaultConfig { force: true }
    );
    assert_eq!(asked(&["--write-default-config"]), Mode::WriteDefaultConfig { force: false });
    assert_eq!(asked(&["--unpark", "--list-actions"]), Mode::ListActions);
    assert_eq!(asked(&["--unpark", "--no-gui"]), Mode::Unpark);
    assert_eq!(asked(&["--no-gui"]), Mode::Review { no_gui: true });
    assert_eq!(asked(&["--wibble"]), Mode::Review { no_gui: false });
    assert_eq!(asked(&[]), Mode::Review { no_gui: false });
}

#[test]
fn the_port_is_a_number() {
    assert_eq!(asked(&["--config-ui"]), Mode::ConfigUi(Ok(8765)));
    assert_eq!(asked(&["--config-ui", "--port"]), Mode::ConfigUi(Ok(8765)));
    assert_eq!(asked(&["--port", "9000", "--config-ui"]), Mode::ConfigUi(Ok(9000)));
    assert_eq!(asked(&["--config-ui", "--port", "65535"]), Mode::ConfigUi(Ok(65535)));
    assert_eq!(asked(&["--config-ui", "--port", "1"]), Mode::ConfigUi(Ok(1)));
    for bad in ["0", "00", "65536", "-1", "x", ""] {
        assert_eq!(
            asked(&["--config-ui", "--port", bad]),
            Mode::ConfigUi(Err(format!("--port wants a number 1-65535, got \"{bad}\"")))
        );
    }
}

#[test]
fn the_action_set_is_listed_with_its_source() {
    let set = parse("timeout_ms = 7\n[[actions]]\nlabel = \"A\"\nkey = \"4\"\ncommand = \"x\"\n[[actions]]\nlabel = \"B\"\ncommand = \"y\"\n");
    assert_eq!(
        listing(&set, "/c"),
        vec!["source: /c", "4  A   [7ms]  x", "-  B   [7ms]  y"]
    );
    assert_eq!(listing(&parse(""), "/c"), vec!["source: /c", "(no actions)"]);
    let p = || Some("/c".to_string());
    assert_eq!(source(p(), true, false), "/c");
    assert_eq!(source(p(), true, true), "/c (unusable — showing built-in defaults)");
    assert_eq!(source(p(), false, true), "/c (absent — showing built-in defaults)");
    assert_eq!(source(None, false, true), "built-in defaults");
}

#[test]
fn nothing_to_review_passes_through() {
    assert!(passes_through("words", true));
    assert!(passes_through(" \n", false));
    assert!(!passes_through("words", false));
    assert_eq!(fallback_outcome("words"), Outcome::Accept("words".to_string()));
    assert_eq!(diagnostic("w"), "voxtype-review: w");
    assert!(HELP.starts_with("voxtype-review — edit-before-insert popup for Voxtype\n"));
    assert!(HELP.ends_with("command = \"voxtype-review\"\n    timeout_ms = 600000"));
}

#[test]
fn times_follow_the_action() {
    let set = parse("[[actions]]\ncommand = \"x\"\ntimeout_ms = 9\n");
    assert_eq!(timeout_of(&Outcome::Apply(0, "t".to_string()), &set), 9);
    assert_eq!(timeout_of(&Outcome::Apply(1, "t".to_string()), &set), DEFAULT_TIMEOUT_MS);
    assert_eq!(timeout_of(&Outcome::Cancel, &set), DEFAULT_TIMEOUT_MS);
    let run = |a: &Action, t: &str, ms: u64| ActionOutcome {
        text: format!("{} {t} {ms}", a.command),
        failure: None,
    };
    assert_eq!(execute(&set, 0, "p", run).text, "x p 9");
    assert_eq!(execute(&set, 1, "p", run).text, "p");
    assert_eq!(defaults().timeout_for(0), DEFAULT_TIMEOUT_MS);
}

#[test]
fn whitespace_is_what_unicode_says() {
    for n in 0..=0x10ffffu32 {
        if let Some(c) = char::from_u32(n) {
            assert_eq!(is_whitespace(c), c.is_whitespace(), "{n:x}");
        }
    }
}

#[test]
fn texts_are_taken_apart_as_std_does() {
    for s in ["", " ", "a", " a b ", "\u{3000}x\u{85}", "a\nb\r\n\nc", "\n", "a\r", "\r\n", ",a,,b,"] {
        assert_eq!(trim(s), s.trim());
        assert_eq!(is_blank(s), s.trim().is_empty());
        assert_eq!(lines(s), s.lines().collect::<Vec<&str>>());
        assert_eq!(split(s, ','), s.split(',').collect::<Vec<&str>>());
        assert_eq!(join(&split(s, ','), ","), s);
    }
}

#[test]
fn numbers_are_written_and_read_as_std_does() {
    for n in [0u64, 7, 10, 99, 100, 12345, u64::MAX] {
        assert_eq!(to_decimal(n as u128), n.to_string());
        assert_eq!(parse_unsigned(&n.to_string(), u64::MAX), Some(n));
    }
    assert_eq!(to_decimal_int(-120), "-120");
    for s in ["", "+", "-1", "+5", "007", " 1", "1 ", "18446744073709551616", "1_0"] {
        assert_eq!(parse_unsigned(s, u64::MAX), s.parse::<u64>().ok(), "{s:?}");
    }
    assert_eq!(parse_unsigned("70000", 65535), None);
}
