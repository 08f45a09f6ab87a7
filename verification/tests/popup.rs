use voxtype_review::action::{Action, ActionFailure, ActionOutcome};
use voxtype_review::review::{
    compose_payload, window_height, Effect, Focus, Keys, Report, Review, Step, Tone,
};
use voxtype_review::voice::{
    capture_log, captures_path, extract_transcript, keeps_converted, kept_name, loudness,
    spoken_text, Transcription,
};

fn no_keys() -> Keys {
    Keys {
        enter: false,
        ctrl_enter: false,
        ctrl_i: false,
        escape: false,
        close_requested: false,
        tab: false,
        shift_tab: false,
        alt_left: false,
        alt_right: false,
        up: false,
        down: false,
        space: false,
        edit: false,
        digits: [false; 10],
    }
}

fn digit(d: usize) -> Keys {
    let mut k = no_keys();
    k.digits[d] = true;
    k
}

fn action(label: &str, key: Option<char>) -> Action {
    Action { label: label.to_string(), key, command: "cat".to_string() }
}

fn popup() -> Review {
    Review::new(
        "raw text",
        vec![action("One", Some('1')), action("Plain", None), action("Five", Some('5'))],
    )
}

fn ran(e: Effect) -> (usize, String) {
    match e {
        Effect::Run { index, payload } => (index, payload),
        other => panic!("expected a run, got {other:?}"),
    }
}

fn accepted(s: Step) -> String {
    assert!(s.done);
    match s.effect {
        Effect::Accept(t) => t,
        other => panic!("expected an accept, got {other:?}"),
    }
}

fn done(text: &str) -> Report<ActionOutcome> {
    Report::Done(ActionOutcome { text: text.to_string(), failure: None })
}

#[test]
fn no_instructions_payload_is_the_bare_transcript() {
    assert_eq!(compose_payload("hello", ""), "hello");
    assert_eq!(compose_payload("hello", "   \n  "), "hello");
}

#[test]
fn instructions_are_wrapped_and_preended() {
    let p = compose_payload("the text", "keep it formal");
    assert!(p.starts_with("[operator instructions]\n"));
    assert!(p.contains("Never repeat these instructions in your output."));
    assert!(p.contains("nothing else.\nkeep it formal\n"));
    assert!(p.ends_with("[/operator instructions]\n\nthe text"));
}

#[test]
fn instructions_are_trimmed() {
    let p = compose_payload("t", "  formal  ");
    assert!(
        p.starts_with("[operator instructions]\nApply these instructions\nformal\n")
            || p.contains("nothing else.\nformal\n")
    );
}

#[test]
fn the_whole_payload_is_exact() {
    assert_eq!(
        compose_payload("the text", " shorter\n"),
        "[operator instructions]\nApply these instructions to the text below. Never repeat these instructions in your output. Output only the final text, nothing else.\nshorter\n[/operator instructions]\n\nthe text"
    );
}

#[test]
fn transcript_is_pulled_from_the_log_wall() {
    let wall = "Loading audio file: \"x.wav\"\n\
                    \x1b[2m2026-09-01T09:58:22Z\x1b[0m \x1b[32m INFO\x1b[0m Flash attention enabled\n\
                    VAD: 2.01s speech (44.7% of audio)\n\
                    \x1b[2m2026-09-01T09:58:29Z\x1b[0m \x1b[32m INFO\x1b[0m Transcription completed in 5.23s: \"verwijder alle herhalingen\"\n";
    assert_eq!(extract_transcript(wall), "verwijder alle herhalingen");
}

#[test]
fn plain_stdout_passes_through() {
    assert_eq!(extract_transcript("just words\n"), "just words");
    assert_eq!(extract_transcript(""), "");
}

#[test]
fn a_transcript_keeps_its_own_quotes() {
    assert_eq!(
        extract_transcript("Transcription completed: \"say \"hi\" now\"\nlast line\n"),
        "say \"hi\" now"
    );
    // A report without two quotes is no report.
    assert_eq!(extract_transcript("Transcription completed: \"\nfoo\n\n"), "foo");
    // The last report counts.
    assert_eq!(
        extract_transcript("Transcription completed \"a\"\nTranscription completed \"b\"\n"),
        "b"
    );
    // A colour that is never closed swallows the rest.
    assert_eq!(extract_transcript("one\n\u{1b}[2 two"), "one");
}

#[test]
fn what_was_spoken_depends_on_how_the_transcription_went() {
    assert_eq!(spoken_text(&Transcription::NotConverted), "");
    assert_eq!(
        spoken_text(&Transcription::NotRun("gone".to_string())),
        "__transcribe_error__gone"
    );
    assert_eq!(spoken_text(&Transcription::Printed(b"words\xff\n".to_vec())), "words\u{fffd}");
}

#[test]
fn a_capture_is_kept_with_its_measurements() {
    assert_eq!(loudness(None), "sox stat failed");
    assert_eq!(loudness(Some(b"nothing\n")), "no rms line");
    assert_eq!(
        loudness(Some(b"Samples: 3\n RMS     amplitude:     0.012 \nRMS amplitude: 2\n")),
        "RMS     amplitude:     0.012"
    );
    assert_eq!(capture_log(12, 0, "quiet", "hi"), "raw=12B wav=0B\nquiet\ntext: hi\n");
    assert_eq!(kept_name(77, "wav"), "voice-77.wav");
    assert!(keeps_converted(1));
    assert!(!keeps_converted(0));
    assert_eq!(
        captures_path(true).map(|p| p.below),
        Some(".local/state/voxtype-review/voice-debug")
    );
    assert!(captures_path(false).is_none());
}

#[test]
fn the_window_grows_with_the_actions_within_bounds() {
    assert_eq!(window_height(0), 380);
    assert_eq!(window_height(4), 380);
    assert_eq!(window_height(5), 385);
    assert_eq!(window_height(9), 469);
    assert_eq!(window_height(17), 637);
    assert_eq!(window_height(18), 640);
    assert_eq!(window_height(usize::MAX), 640);
}

#[test]
fn a_digit_runs_the_action_that_shows_it() {
    let mut p = popup();
    let s = p.handle_list_keys(&digit(5));
    assert!(s.done);
    assert_eq!(ran(s.effect), (2, "raw text".to_string()));
    assert_eq!(p.running, Some(2));
    assert_eq!(p.last_action, 2);
    // No action shows a 2, so nothing runs and the key is not used up.
    let mut q = popup();
    let s = q.handle_list_keys(&digit(2));
    assert!(!s.done);
    assert!(matches!(s.effect, Effect::Nothing));
    assert_eq!(q.running, None);
}

#[test]
fn one_action_runs_at_a_time() {
    let mut p = popup();
    ran(p.start_action(0));
    assert!(matches!(p.start_action(1), Effect::Nothing));
    assert_eq!(p.running, Some(0));
    assert!(matches!(popup().start_action(3), Effect::Nothing));
}

#[test]
fn a_round_lands_in_the_box_and_can_be_undone() {
    let mut p = popup();
    p.start_action(0);
    p.poll_running(Report::Pending);
    assert_eq!(p.text, "raw text");
    p.poll_running(done("tidy text"));
    assert_eq!(p.text, "tidy text");
    assert_eq!(p.running, None);
    p.start_action(1);
    p.poll_running(done("short"));
    assert_eq!(p.history, vec!["raw text", "tidy text", "short"]);
    p.history_step(-1);
    assert_eq!(p.text, "tidy text");
    p.history_step(-1);
    assert_eq!(p.text, "raw text");
    p.history_step(-1);
    assert_eq!(p.history_idx, 0);
    p.history_step(1);
    assert_eq!(p.text, "tidy text");
    // A new round replaces the rounds behind the one that is shown.
    p.start_action(2);
    p.poll_running(done("other"));
    assert_eq!(p.history, vec!["raw text", "tidy text", "other"]);
    p.history_step(1);
    assert_eq!(p.text, "other");
    p.history_step(-2);
    assert_eq!(p.text, p.original);
}

#[test]
fn a_failed_action_leaves_the_text_and_says_why() {
    let mut p = popup();
    p.start_action(0);
    p.poll_running(Report::Done(ActionOutcome {
        text: "ignored".to_string(),
        failure: Some(ActionFailure::Timeout { ms: 5 }),
    }));
    assert_eq!(p.text, "raw text");
    assert_eq!(p.history.len(), 1);
    assert_eq!(
        p.banner(),
        Some("action failed: the action was still running after 5ms and was stopped".to_string())
    );
    p.start_action(0);
    assert_eq!(p.banner(), None);
    p.poll_running(Report::Dead);
    assert_eq!(p.error, Some("action worker died without a result".to_string()));
    // Nothing is running, so a late report changes nothing.
    p.poll_running(done("late"));
    assert_eq!(p.text, "raw text");
}

#[test]
fn only_three_keys_commit_and_they_commit_the_box() {
    let mut p = popup();
    p.text = "edited".to_string();
    let mut k = no_keys();
    k.enter = true;
    assert_eq!(accepted(p.handle_list_keys(&k)), "edited");
    assert_eq!(accepted(p.handle_list_keys(&digit(0))), "edited");
    k.ctrl_enter = true;
    p.focus = Focus::Instructions;
    assert_eq!(accepted(p.handle_global_keys(&k)), "edited");
    assert!(matches!(p.click_accept(), Effect::Accept(t) if t == "edited"));
}

#[test]
fn escape_cancels_in_the_list_and_leaves_a_box() {
    let mut k = no_keys();
    k.escape = true;
    let mut p = popup();
    let s = p.handle_list_keys(&k);
    assert!(s.done && matches!(s.effect, Effect::Cancel));
    p.click_box(Focus::Text);
    let s = p.handle_global_keys(&k);
    assert!(!s.done && matches!(s.effect, Effect::Nothing));
    p.leave_box(true);
    assert_eq!(p.focus, Focus::List);
    assert_eq!(p.take_focus(), Some(Focus::List));
    assert_eq!(p.take_focus(), None);
    let mut close = no_keys();
    close.close_requested = true;
    let s = p.handle_global_keys(&close);
    assert!(s.done && matches!(s.effect, Effect::Cancel));
}

#[test]
fn enter_in_the_instructions_runs_the_last_action() {
    let mut p = popup();
    p.start_action(2);
    p.poll_running(done("x"));
    p.instructions = "formal".to_string();
    p.focus = Focus::Instructions;
    let mut k = no_keys();
    k.enter = true;
    let s = p.handle_global_keys(&k);
    assert!(s.done);
    let (index, payload) = ran(s.effect);
    assert_eq!(index, 2);
    assert_eq!(payload, compose_payload("x", "formal"));
    // In the transcript box Enter is a newline, and nothing happens here.
    let mut q = popup();
    q.focus = Focus::Text;
    assert!(!q.handle_global_keys(&k).done);
}

#[test]
fn tab_cycles_both_ways() {
    let mut p = popup();
    let mut tab = no_keys();
    tab.tab = true;
    let mut back = no_keys();
    back.shift_tab = true;
    let mut seen = vec![];
    for _ in 0..3 {
        p.handle_global_keys(&tab);
        seen.push(p.focus);
    }
    assert_eq!(seen, vec![Focus::Text, Focus::Instructions, Focus::List]);
    p.handle_global_keys(&back);
    assert_eq!(p.focus, Focus::Instructions);
    p.handle_global_keys(&back);
    assert_eq!(p.focus, Focus::Text);
    assert!(p.focus_pending);
    assert_eq!(Focus::Text.next().previous(), Focus::Text);
}

#[test]
fn alt_arrows_step_through_the_rounds() {
    let mut p = popup();
    p.start_action(0);
    p.poll_running(done("two"));
    let mut back = no_keys();
    back.alt_left = true;
    assert!(!p.handle_global_keys(&back).done);
    assert_eq!(p.text, "raw text");
    let mut on = no_keys();
    on.alt_right = true;
    p.handle_global_keys(&on);
    assert_eq!(p.text, "two");
}

#[test]
fn the_highlight_moves_and_space_runs_it() {
    let mut p = popup();
    let mut down = no_keys();
    down.down = true;
    let mut up = no_keys();
    up.up = true;
    p.handle_list_keys(&up);
    assert_eq!(p.selected, 0);
    for _ in 0..5 {
        p.handle_list_keys(&down);
    }
    assert_eq!(p.selected, 2);
    p.handle_list_keys(&up);
    assert_eq!(p.row(1), ("      Plain".to_string(), true));
    assert_eq!(p.row(0), ("  1   One".to_string(), false));
    let mut space = no_keys();
    space.space = true;
    let s = p.handle_list_keys(&space);
    assert_eq!(ran(s.effect).0, 1);
    let mut edit = no_keys();
    edit.edit = true;
    assert!(!p.handle_list_keys(&edit).done);
    assert_eq!(p.focus, Focus::Text);
}

#[test]
fn clicking_a_row_highlights_and_runs_it() {
    let mut p = popup();
    assert_eq!(ran(p.click_action(1)).0, 1);
    assert_eq!(p.selected, 1);
}

#[test]
fn an_empty_list_runs_nothing() {
    let mut p = Review::new("t", vec![]);
    let mut k = no_keys();
    k.space = true;
    k.down = true;
    let s = p.handle_list_keys(&k);
    assert!(!s.done && matches!(s.effect, Effect::Nothing));
    assert_eq!(p.selected, 0);
    assert_eq!(
        p.legend_text(),
        "Enter accept   ·   0 accept now   ·   e edit   ·   Esc cancel (raw)"
    );
}

#[test]
fn speaking_fills_the_instructions() {
    let mut p = popup();
    let mut k = no_keys();
    k.ctrl_i = true;
    // Nothing in the list.
    assert!(!p.handle_global_keys(&k).done);
    p.focus = Focus::Instructions;
    let s = p.handle_global_keys(&k);
    assert!(s.done && matches!(s.effect, Effect::StartRecording));
    p.recording_started(Err("no microphone".to_string()));
    assert_eq!(p.error, Some("voice capture failed to start: no microphone".to_string()));
    p.recording_started(Ok(()));
    assert!(p.recording);
    assert_eq!(p.error, None);
    assert_eq!(
        p.status(),
        Some((Tone::Listening, "● listening — Ctrl+I to stop".to_string()))
    );
    let mut esc = no_keys();
    esc.escape = true;
    let s = p.handle_global_keys(&esc);
    assert!(s.done && matches!(s.effect, Effect::StopRecording));
    assert!(!p.recording && p.transcribing);
    // While a capture is transcribed, none is started.
    assert!(matches!(p.handle_global_keys(&k).effect, Effect::Nothing));
    p.poll_transcription(Report::Pending);
    assert!(p.transcribing);
    p.poll_transcription(Report::Done("be brief".to_string()));
    assert_eq!(p.instructions, "be brief");
    p.recording_started(Ok(()));
    p.handle_global_keys(&k);
    p.poll_transcription(Report::Done("and formal".to_string()));
    assert_eq!(p.instructions, "be brief and formal");
    p.recording_started(Ok(()));
    p.handle_global_keys(&k);
    p.poll_transcription(Report::Done("".to_string()));
    assert_eq!(
        p.error,
        Some("voice transcription produced nothing — try again".to_string())
    );
    p.recording_started(Ok(()));
    p.handle_global_keys(&k);
    p.poll_transcription(Report::Dead);
    assert_eq!(p.error, Some("voice transcription worker died".to_string()));
    p.clear_instructions();
    assert_eq!(p.instructions, "");
}

#[test]
fn the_status_tells_what_matters_most() {
    let mut p = popup();
    assert_eq!(p.status(), None);
    assert_eq!(p.round(), None);
    p.start_action(0);
    assert_eq!(p.status(), Some((Tone::Busy, "running: One ...".to_string())));
    p.poll_running(done("new"));
    assert_eq!(p.status(), Some((Tone::Changed, "edited by agent".to_string())));
    assert_eq!(p.round(), Some("round 2/2   Alt+arrow steps".to_string()));
    p.focus = Focus::Text;
    assert_eq!(p.status(), Some((Tone::Busy, "editing".to_string())));
    assert!(p.legend_text().starts_with("Enter run   ·   Ctrl+I speak"));
    p.transcribing = true;
    assert_eq!(p.status(), Some((Tone::Busy, "transcribing…".to_string())));
    p.focus = Focus::List;
    assert!(p.legend_text().contains("1-9 run action"));
}

#[test]
fn a_frame_takes_the_keys_and_the_workers_in_order() {
    // A key that ends the frame leaves the workers unasked.
    let mut r = popup();
    ran(r.start_action(0));
    let mut k = no_keys();
    k.ctrl_enter = true;
    let step = r.frame(&k, || panic!("asked"), || panic!("asked"));
    assert_eq!(accepted(step), "raw text");
    assert_eq!(r.running, Some(0));

    // A result is taken up before the keys of the list.
    let step = r.frame(&digit(0), || done("tidied"), || Report::Pending);
    assert_eq!(accepted(step), "tidied");
    assert_eq!(r.running, None);

    // A digit runs the next action over the result of the last one.
    ran(r.start_action(0));
    let step = r.frame(&digit(5), || done("twice"), || Report::Pending);
    assert!(step.done);
    assert_eq!(ran(step.effect), (2, "twice".to_string()));

    // Away from the list, its keys do nothing.
    let mut r = popup();
    r.click_box(Focus::Text);
    let step = r.frame(&digit(0), || Report::Pending, || Report::Pending);
    assert!(!step.done && matches!(step.effect, Effect::Nothing));
}
