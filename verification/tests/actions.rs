use voxtype_review::action::{Action, ActionFailure, ActionOutcome};
use voxtype_review::decision::{decided, record_decision, resolve, Outcome};
use voxtype_review::focus::{
    after_probe, read_input, reported_window, window_gone, Origin, Output, RestoreStep, ATTEMPTS,
    HOLD_CHECK_MS, PROBES, PROBE_MS, RETRY_MS,
};
use voxtype_review::run::{
    conclude, last_stderr_line, quote_stderr, run_action, wait_step, ChildEnd, Poll, Wait, POLL_MS,
};
use voxtype_review::terminal::sanitize;

fn exited(code: i32, stdout: &str, stderr: &str) -> ChildEnd {
    ChildEnd::Exited {
        success: code == 0,
        code: Some(code),
        stdout: stdout.as_bytes().to_vec(),
        stderr: Some(stderr.as_bytes().to_vec()),
    }
}

/// What the commands of these tests do.
fn shell(command: &str, text: &str, _ms: u64) -> ChildEnd {
    match command {
        "tr a-z A-Z" => exited(0, &text.to_ascii_uppercase(), ""),
        "printf 'I have bad grammar\\033[1D\\033[K and stuff.\\033[?25h\\n'" => {
            exited(0, "I have bad grammar\u{1b}[1D\u{1b}[K and stuff.\u{1b}[?25h\n", "")
        }
        "printf 'tidied\\n\\n'" => exited(0, "tidied\n\n", ""),
        "printf '\\033[?25l\\033[2K\\033[1G'" => exited(0, "\u{1b}[?25l\u{1b}[2K\u{1b}[1G", ""),
        "printf -- '- one [a]\\n- two (b)\\n\\tindented\\n'" => {
            exited(0, "- one [a]\n- two (b)\n\tindented\n", "")
        }
        "exit 3" => exited(3, "", ""),
        "true" => exited(0, "", ""),
        "this-binary-does-not-exist-anywhere" => {
            exited(127, "", "sh: 1: this-binary-does-not-exist-anywhere: not found\n")
        }
        "sleep 30" => ChildEnd::TimedOut,
        "echo 'loading model...' >&2; echo 'connection refused' >&2; exit 1" => {
            exited(1, "", "loading model...\nconnection refused\n")
        }
        "yes x | head -c 200000 >&2; echo done" => exited(0, "done\n", &"x\n".repeat(100_000)),
        "yes x | head -c 262144" => exited(0, &"x\n".repeat(131_072), ""),
        other => panic!("no such command here: {other}"),
    }
}

fn run_it(action: &Action, text: &str, ms: u64) -> ActionOutcome {
    run_action(action, text, ms, shell)
}

fn upper() -> Vec<Action> {
    vec![Action {
        label: "Uppercase".to_string(),
        key: Some('1'),
        command: "tr a-z A-Z".to_string(),
    }]
}

fn run(command: &str, text: &str, ms: u64) -> ActionOutcome {
    run_it(
        &Action { label: "t".to_string(), key: Some('1'), command: command.to_string() },
        text,
        ms,
    )
}

fn decide(outcome: Outcome, original: &str, actions: &Vec<Action>) -> ActionOutcome {
    resolve(outcome, original, actions, 5000, run_it)
}

#[test]
fn cancel_emits_the_original_not_nothing() {
    assert_eq!(decide(Outcome::Cancel, "hello world", &vec![]).text, "hello world");
}

#[test]
fn accept_emits_the_edit() {
    assert_eq!(
        decide(Outcome::Accept("edited".to_string()), "original", &vec![]).text,
        "edited"
    );
}

#[test]
fn clearing_the_box_falls_back_rather_than_losing_the_dictation() {
    assert_eq!(
        decide(Outcome::Accept("   ".to_string()), "original", &vec![]).text,
        "original"
    );
    assert_eq!(decide(Outcome::Accept("".to_string()), "original", &vec![]).text, "original");
}

#[test]
fn apply_runs_the_action_over_the_edited_text() {
    let got = decide(Outcome::Apply(0, "edited".to_string()), "original", &upper());
    assert_eq!(got.text.trim(), "EDITED");
}

#[test]
fn apply_with_an_unknown_index_keeps_the_text() {
    let got = decide(Outcome::Apply(9, "edited".to_string()), "original", &upper());
    assert_eq!(got.text, "edited");
}

#[test]
fn apply_over_an_emptied_box_falls_back_to_the_original() {
    let got = decide(Outcome::Apply(0, "".to_string()), "original", &upper());
    assert_eq!(got.text.trim(), "ORIGINAL");
}

#[test]
fn the_paths_that_cannot_fail_report_success_rather_than_nothing() {
    assert!(decide(Outcome::Cancel, "x", &vec![]).failure.is_none());
    assert!(decide(Outcome::Accept("e".to_string()), "x", &vec![]).failure.is_none());
    assert!(decide(Outcome::Apply(0, "e".to_string()), "x", &upper()).failure.is_none());
}

#[test]
fn terminal_control_sequences_never_reach_the_text_field() {
    let got = run(
        "printf 'I have bad grammar\\033[1D\\033[K and stuff.\\033[?25h\\n'",
        "i has bad grammar and stuff",
        5000,
    )
    .text;
    assert!(!got.contains('\u{1b}'), "escape byte survived: {got:?}");
    assert!(!got.contains('['), "a CSI body leaked through: {got:?}");
    assert_eq!(got, "I have bad grammar and stuff.");
}

#[test]
fn a_trailing_newline_does_not_break_the_line_being_dictated_into() {
    assert_eq!(run("printf 'tidied\\n\\n'", "messy", 5000).text, "tidied");
}

#[test]
fn output_that_is_nothing_but_control_codes_returns_the_original() {
    let got = run("printf '\\033[?25l\\033[2K\\033[1G'", "keep me", 5000);
    assert_eq!(got.text, "keep me");
}

#[test]
fn ordinary_punctuation_and_internal_newlines_are_left_alone() {
    let got = run("printf -- '- one [a]\\n- two (b)\\n\\tindented\\n'", "x", 5000);
    assert_eq!(got.text, "- one [a]\n- two (b)\n\tindented");
}

#[test]
fn action_transforms_via_stdin_stdout() {
    let a = Action {
        label: "upper".to_string(),
        key: Some('1'),
        command: "tr a-z A-Z".to_string(),
    };
    assert_eq!(run_it(&a, "hello", 5000).text.trim(), "HELLO");
}

#[test]
fn failing_action_returns_the_original_and_says_it_failed() {
    let got = run("exit 3", "keep me", 5000);
    assert_eq!(got.text, "keep me");
    match got.failure {
        Some(ActionFailure::Exit { code, .. }) => assert_eq!(code, Some(3)),
        other => panic!("expected a non-zero exit, got {other:?}"),
    }
}

#[test]
fn action_producing_nothing_returns_the_original_and_says_it_was_empty() {
    let got = run("true", "keep me", 5000);
    assert_eq!(got.text, "keep me");
    assert!(matches!(got.failure, Some(ActionFailure::Empty { .. })), "{:?}", got.failure);
}

#[test]
fn a_missing_binary_names_itself_instead_of_vanishing() {
    let got = run("this-binary-does-not-exist-anywhere", "keep me", 5000);
    assert_eq!(got.text, "keep me");
    let f = got.failure.expect("a missing binary must not look like success");
    assert!(
        f.message().contains("this-binary-does-not-exist-anywhere"),
        "the diagnosis does not name the binary, so it does not help: {}",
        f.message()
    );
    assert!(
        f.message().contains("not found"),
        "the shell's own words are the useful part and were dropped: {}",
        f.message()
    );
}

#[test]
fn hanging_action_times_out_returns_the_original_and_says_it_timed_out() {
    let got = run("sleep 30", "keep me", 300);
    assert_eq!(got.text, "keep me");
    assert!(
        matches!(got.failure, Some(ActionFailure::Timeout { ms: 300 })),
        "expected a timeout carrying its own budget, got {:?}",
        got.failure
    );
    let mut waited: u128 = 0;
    loop {
        match wait_step(Poll::Running { waited_ms: waited }, 300) {
            Wait::Sleep { ms } => waited += ms as u128,
            Wait::Kill => break,
            other => panic!("{other:?}"),
        }
    }
    assert!(waited < 5000, "timeout did not fire; took {waited:?}");
    assert_eq!(waited, 300);
}

#[test]
fn a_successful_action_carries_no_failure() {
    assert!(run("tr a-z A-Z", "hello", 5000).failure.is_none());
}

#[test]
fn every_failure_mode_is_distinguishable_from_every_other() {
    let cases = [
        ("exit 3", "non-zero exit"),
        ("true", "empty output"),
        ("this-binary-does-not-exist-anywhere", "missing binary"),
        ("sleep 30", "timeout"),
    ];
    let mut seen: Vec<(String, String)> = Vec::new();
    for (cmd, name) in cases {
        let f = run(cmd, "keep me", 300)
            .failure
            .unwrap_or_else(|| panic!("{name} produced no diagnosis at all"));
        let msg = f.message();
        for (prev_msg, prev_name) in &seen {
            assert_ne!(
                &msg, prev_msg,
                "{name} and {prev_name} are indistinguishable to the operator"
            );
        }
        seen.push((msg, name.to_string()));
    }
    let f = decide(Outcome::Apply(9, "e".to_string()), "original", &upper())
        .failure
        .expect("a missing action produced no diagnosis at all");
    let msg = f.message();
    for (prev_msg, prev_name) in &seen {
        assert_ne!(
            &msg, prev_msg,
            "missing action and {prev_name} are indistinguishable to the operator"
        );
    }
    seen.push((msg, "missing action".to_string()));
    assert_eq!(seen.len(), 5);
}

#[test]
fn applying_an_action_the_config_lost_is_reported_not_swallowed() {
    let got = decide(Outcome::Apply(9, "edited".to_string()), "original", &upper());
    assert_eq!(got.text, "edited", "the text must survive regardless");
    match got.failure {
        Some(ActionFailure::NoSuchAction { position, available }) => {
            assert_eq!(position, 10, "the position should read as the operator counts");
            assert_eq!(available, 1, "and say how many there actually are");
        }
        other => panic!("a lost action still reports success: {other:?}"),
    }
}

#[test]
fn a_lost_action_over_an_emptied_box_still_falls_back_to_the_original() {
    let got = decide(Outcome::Apply(9, "".to_string()), "original", &upper());
    assert_eq!(got.text, "original");
    assert!(
        matches!(got.failure, Some(ActionFailure::NoSuchAction { .. })),
        "got {:?}",
        got.failure
    );
}

#[test]
fn the_stderr_line_kept_is_the_last_one_not_the_first() {
    let got = run(
        "echo 'loading model...' >&2; echo 'connection refused' >&2; exit 1",
        "keep me",
        5000,
    );
    let msg = got.failure.expect("expected a failure").message();
    assert!(msg.contains("connection refused"), "got: {msg}");
    assert!(!msg.contains("loading model"), "kept the banner: {msg}");
}

#[test]
fn a_command_that_floods_stderr_still_succeeds() {
    let got = run("yes x | head -c 200000 >&2; echo done", "keep me", 10_000);
    assert_eq!(got.text, "done", "200KB on stderr blocked the action: {:?}", got.failure);
    assert!(got.failure.is_none(), "got {:?}", got.failure);
}

#[test]
fn a_long_output_comes_back_whole_instead_of_looking_like_a_hang() {
    let want: String = std::iter::repeat("x\n").take(131_072).collect();
    let want = want.trim_end();
    let got = run("yes x | head -c 262144", "keep me", 5_000);
    assert!(
        got.failure.is_none(),
        "an action that produced 256KB was reported as failing: {:?}",
        got.failure
    );
    assert_eq!(
        got.text.len(),
        want.len(),
        "output was truncated: got {} bytes, wanted {}",
        got.text.len(),
        want.len()
    );
    assert_eq!(got.text, want, "output came back altered, not merely short");
}

#[test]
fn every_variant_renders_a_message_that_names_its_cause() {
    assert!(ActionFailure::Spawn("no such file".to_string()).message().contains("could not start"));
    assert!(ActionFailure::Exit { code: Some(127), stderr: None }.message().contains("127"));
    assert!(ActionFailure::Timeout { ms: 1200 }.message().contains("1200ms"));
    assert!(ActionFailure::Empty { stderr: None }.message().contains("no output"));
    assert!(ActionFailure::NoSuchAction { position: 3, available: 2 }
        .message()
        .contains("action 3"));
    assert!(ActionFailure::NoSuchAction { position: 1, available: 0 }
        .message()
        .contains("is now empty"));
}

#[test]
fn messages_read_as_sentences() {
    let msg = |f: ActionFailure| f.message();
    assert_eq!(
        msg(ActionFailure::Spawn("no sh".to_string())),
        "could not start the action: no sh"
    );
    assert_eq!(
        msg(ActionFailure::Exit { code: Some(-3), stderr: Some("oops".to_string()) }),
        "the action exited -3: oops"
    );
    assert_eq!(
        msg(ActionFailure::Exit { code: None, stderr: None }),
        "the action was killed by a signal and wrote nothing to stderr"
    );
    assert_eq!(
        msg(ActionFailure::Timeout { ms: 300 }),
        "the action was still running after 300ms and was stopped"
    );
    assert_eq!(
        msg(ActionFailure::Empty { stderr: Some("why".to_string()) }),
        "the action produced no output: why"
    );
    assert_eq!(
        msg(ActionFailure::NoSuchAction { position: 10, available: 1 }),
        "you asked for action 10, but the action list now has 1 action — it changed while the popup was open"
    );
    assert_eq!(
        msg(ActionFailure::NoSuchAction { position: 2, available: 12 }),
        "you asked for action 2, but the action list now has 12 actions — it changed while the popup was open"
    );
}

#[test]
fn a_command_that_cannot_be_run_or_watched_is_a_spawn_failure() {
    let a = conclude("keep", 5, ChildEnd::NotStarted("denied".to_string()));
    assert_eq!(a.text, "keep");
    assert_eq!(a.failure, Some(ActionFailure::Spawn("denied".to_string())));
    let b = conclude("keep", 5, ChildEnd::Lost("gone".to_string()));
    assert_eq!(b.failure, Some(ActionFailure::Spawn("gone".to_string())));
}

#[test]
fn output_that_is_not_utf8_is_replaced_rather_than_dropped() {
    let end = ChildEnd::Exited {
        success: true,
        code: Some(0),
        stdout: vec![b'a', 0xff, b'b'],
        stderr: None,
    };
    assert_eq!(conclude("x", 5, end).text, "a\u{fffd}b");
}

#[test]
fn waiting_for_a_command_step_by_step() {
    assert!(matches!(
        wait_step(Poll::Exited { success: false, code: Some(2) }, 10),
        Wait::Collect { success: false, code: Some(2) }
    ));
    assert!(matches!(
        wait_step(Poll::Running { waited_ms: 9 }, 10),
        Wait::Sleep { ms: POLL_MS }
    ));
    assert!(matches!(wait_step(Poll::Running { waited_ms: 10 }, 10), Wait::Kill));
    match wait_step(Poll::Failed("e".to_string()), 10) {
        Wait::Lost(e) => assert_eq!(e, "e"),
        other => panic!("{other:?}"),
    }
}

#[test]
fn a_diagnosis_is_cleaned_and_bounded() {
    assert_eq!(last_stderr_line(b"one\n\n  two \r\n\n"), Some("two".to_string()));
    assert_eq!(last_stderr_line(b"\n \n"), None);
    assert_eq!(last_stderr_line(b"\x1b[31mred\x1b[0m\n"), Some("red".to_string()));
    assert_eq!(last_stderr_line(&[0xff, b'x']), Some("\u{fffd}x".to_string()));
    assert_eq!(quote_stderr(&"y".repeat(200)), Some("y".repeat(200)));
    assert_eq!(quote_stderr(&"y".repeat(201)), Some("y".repeat(200) + "…"));
    // A line of nothing but control codes says nothing.
    assert_eq!(quote_stderr("\u{1b}[2K"), None);
    assert_eq!(quote_stderr("failed\n\u{1b}[2K\r\n\u{7}\n"), Some("failed".to_string()));
    assert_eq!(quote_stderr("a\u{7}b"), Some("ab".to_string()));
    let said_nothing = conclude("text", 5000, exited(3, "", "\u{1b}[2K"));
    assert_eq!(
        said_nothing.failure.unwrap().message(),
        "the action exited 3 and wrote nothing to stderr"
    );
}

#[test]
fn messages_tell_every_failure_apart() {
    let exit = |code: Option<i32>, stderr: Option<&str>| ActionFailure::Exit {
        code,
        stderr: stderr.map(str::to_string),
    };
    let empty = |stderr: Option<&str>| ActionFailure::Empty { stderr: stderr.map(str::to_string) };
    let all = vec![
        ActionFailure::Spawn("a".to_string()),
        ActionFailure::Spawn("b".to_string()),
        exit(Some(1), None),
        exit(Some(-1), None),
        exit(Some(1), Some("and wrote nothing to stderr")),
        exit(Some(12), Some("x")),
        exit(Some(1), Some("2: x")),
        exit(None, None),
        exit(None, Some("x")),
        ActionFailure::Timeout { ms: 1 },
        ActionFailure::Timeout { ms: 11 },
        empty(None),
        empty(Some("")),
        empty(Some("x")),
        ActionFailure::NoSuchAction { position: 1, available: 0 },
        ActionFailure::NoSuchAction { position: 1, available: 1 },
        ActionFailure::NoSuchAction { position: 1, available: 11 },
        ActionFailure::NoSuchAction { position: 11, available: 1 },
    ];
    for (i, a) in all.iter().enumerate() {
        assert_eq!(a.clone(), *a);
        for (j, b) in all.iter().enumerate() {
            assert_eq!(i == j, a.message() == b.message(), "{a:?} {b:?}");
        }
    }
    assert!(exit(Some(2), Some("no such file")).message().ends_with("no such file"));
    let outcome = ActionOutcome::failed("t", empty(None));
    assert_eq!(outcome.clone(), outcome);
}

#[test]
fn escapes_of_every_kind_are_dropped_whole() {
    assert_eq!(sanitize("a\u{1b}[31;1mb"), "ab");
    assert_eq!(sanitize("a\u{1b}]0;title\u{7}b"), "ab");
    assert_eq!(sanitize("a\u{1b}]0;title\u{1b}\\b"), "ab");
    assert_eq!(sanitize("a\u{1b}]0;title\u{1b}b"), "ab");
    assert_eq!(sanitize("a\u{1b}(Bb"), "aBb");
    assert_eq!(sanitize("a\u{1b}"), "a");
    assert_eq!(sanitize("a\u{1b}[12"), "a");
    assert_eq!(sanitize("a\r\u{0}\u{8}b"), "ab");
    assert_eq!(sanitize(" \t a\tb\n c \n"), "a\tb\n c");
    let twice = sanitize(&sanitize("  \u{1b}[1m x [y] \u{7} "));
    assert_eq!(twice, sanitize("  \u{1b}[1m x [y] \u{7} "));
}

#[test]
fn origin_without_a_window_cannot_restore_but_does_not_panic() {
    let o = Origin { window_id: None };
    assert_eq!(o.restore(), RestoreStep::Done { restored: false });
}

#[test]
fn hold_without_a_window_returns_instead_of_sleeping() {
    let o = Origin { window_id: None };
    assert!(!o.hold(0, 5_000), "hold with no origin would sleep");
}

#[test]
fn hold_runs_at_least_as_long_as_asked_when_it_has_a_window() {
    let o = Origin { window_id: Some("0x1".to_string()) };
    let mut waited: u128 = 0;
    while o.hold(waited, 250) {
        waited += HOLD_CHECK_MS as u128;
    }
    assert!(waited >= 250, "hold(250) returned after only {waited}ms");
}

#[test]
fn the_close_a_decision_requests_does_not_overwrite_that_decision() {
    let mut slot = None;
    record_decision(&mut slot, Outcome::Accept("edited".to_string()));
    record_decision(&mut slot, Outcome::Cancel);
    assert_eq!(slot.clone(), Some(Outcome::Accept("edited".to_string())));
}

#[test]
fn an_action_survives_the_close_it_requested() {
    let mut slot = None;
    record_decision(&mut slot, Outcome::Apply(0, "text".to_string()));
    record_decision(&mut slot, Outcome::Cancel);
    assert_eq!(slot.clone(), Some(Outcome::Apply(0, "text".to_string())));
}

#[test]
fn a_window_manager_close_with_no_decision_is_still_a_cancel() {
    let mut slot = None;
    record_decision(&mut slot, Outcome::Cancel);
    assert_eq!(slot.clone(), Some(Outcome::Cancel));
    assert_eq!(decided(None), Outcome::Cancel);
    assert_eq!(decided(slot), Outcome::Cancel);
}

#[test]
fn the_origin_is_the_window_that_is_reported() {
    let said = |stdout: &[u8]| Some(Output { success: true, stdout: stdout.to_vec() });
    assert_eq!(reported_window(&said(b" 4194311\n")), "4194311");
    assert_eq!(reported_window(&Some(Output { success: false, stdout: b"7".to_vec() })), "");
    assert_eq!(reported_window(&None), "");
    assert!(window_gone(&None));
    assert!(window_gone(&said(b"\n")));
    assert!(!window_gone(&said(b"12\n")));
    assert_eq!(Origin::capture("".to_string()), Origin { window_id: None });
    assert_eq!(
        Origin::capture("12".to_string()),
        Origin { window_id: Some("12".to_string()) }
    );
}

#[test]
fn restoring_waits_for_the_popup_and_gives_up_in_the_end() {
    let o = Origin { window_id: Some("12".to_string()) };
    assert_eq!(o.restore(), RestoreStep::Probe { attempt: 1 });
    assert_eq!(after_probe(1, true), (RestoreStep::Focus { attempt: 1 }, 0));
    assert_eq!(after_probe(1, false), (RestoreStep::Probe { attempt: 2 }, PROBE_MS));
    assert_eq!(after_probe(PROBES, false), (RestoreStep::Focus { attempt: 1 }, PROBE_MS));
    assert_eq!(o.after_focus(1, "12", "12"), (RestoreStep::Done { restored: true }, 0));
    assert_eq!(o.after_focus(1, "12", "9"), (RestoreStep::Focus { attempt: 2 }, RETRY_MS));
    assert_eq!(
        o.after_focus(ATTEMPTS, "9", "12"),
        (RestoreStep::Done { restored: false }, RETRY_MS)
    );
    assert!(o.stolen("9"));
    assert!(!o.stolen(""));
    assert!(!o.stolen("12"));
}

#[test]
fn input_that_is_not_utf8_is_replaced_rather_than_rejected() {
    assert_eq!(read_input(Some(vec![b'h', 0xff, b'i'])), "h\u{fffd}i");
    assert_eq!(read_input(None), "");
}
