use std::collections::BTreeMap;

use voxtype_review::config::{
    config_path, defaults, load, parse, starter_file, toml_escape, write_default_config,
    ConfigRead, DEFAULT_TIMEOUT_MS,
};
use voxtype_review::place::Base;
use voxtype_review::toml_doc::heading;

#[test]
fn parses_a_well_formed_config() {
    let got = parse(
        r#"
            [[actions]]
            label = "Upper"
            key = "1"
            command = "tr a-z A-Z"

            [[actions]]
            label = "Lower"
            key = "2"
            command = "tr A-Z a-z"
            "#,
    );
    assert_eq!(got.actions.len(), 2);
    assert_eq!(got.actions[0].label, "Upper");
    assert_eq!(got.actions[0].key, Some('1'));
    assert!(got.warnings.is_empty());
    assert!(!got.used_defaults);
}

#[test]
fn malformed_toml_falls_back_to_defaults_with_a_warning() {
    let got = parse("this is not toml [[[");
    assert!(got.used_defaults);
    assert!(!got.actions.is_empty(), "must still offer actions");
    assert_eq!(got.warnings.len(), 1);
    assert!(got.warnings[0].contains("not valid TOML"));
}

#[test]
fn an_action_without_a_command_is_skipped_and_the_rest_survive() {
    let got = parse(
        r#"
            [[actions]]
            label = "Broken"
            key = "1"

            [[actions]]
            label = "Fine"
            key = "2"
            command = "cat"
            "#,
    );
    assert_eq!(got.actions.len(), 1);
    assert_eq!(got.actions[0].label, "Fine");
    assert!(got.warnings[0].contains("no command"));
    assert!(got.warnings[0].contains("Broken"), "warning must name it");
}

#[test]
fn an_out_of_range_hotkey_is_rejected() {
    for bad in ["0", "a", "12", "!"] {
        let got = parse(&format!(
            r#"
                [[actions]]
                label = "Bad"
                key = "{bad}"
                command = "cat"
                "#
        ));
        assert_eq!(got.actions.len(), 0, "key {bad:?} should be rejected");
        assert!(got.warnings[0].contains("must be 1-9"));
    }
}

#[test]
fn a_duplicate_hotkey_is_rejected_and_the_first_wins() {
    let got = parse(
        r#"
            [[actions]]
            label = "First"
            key = "1"
            command = "cat"

            [[actions]]
            label = "Second"
            key = "1"
            command = "cat"
            "#,
    );
    assert_eq!(got.actions.len(), 1);
    assert_eq!(got.actions[0].label, "First");
    assert!(got.warnings[0].contains("reuses hotkey"));
}

#[test]
fn an_action_may_have_no_hotkey_at_all() {
    let got = parse(
        r#"
            [[actions]]
            label = "Arrow only"
            command = "cat"
            "#,
    );
    assert_eq!(got.actions.len(), 1);
    assert_eq!(got.actions[0].key, None);
    assert!(got.warnings.is_empty());
}

#[test]
fn an_empty_config_is_legal_and_yields_no_actions() {
    let got = parse("");
    assert!(got.actions.is_empty());
    assert!(!got.used_defaults, "empty is a deliberate choice, not a failure");
    assert!(got.warnings.iter().any(|w| w.contains("no usable actions")));
}

#[test]
fn a_singular_action_key_is_named_rather_than_silently_ignored() {
    let got = parse(
        r#"
            [[action]]
            key = "1"
            label = "Tidy"
            command = "cat"
            "#,
    );
    assert!(got.actions.is_empty());
    assert!(
        got.warnings
            .iter()
            .any(|w| w.contains("unknown key \"action\"") && w.contains("[[actions]]")),
        "the warning must name the key and the correction: {:?}",
        got.warnings
    );
}

#[test]
fn an_unknown_top_level_key_is_reported_but_does_not_lose_good_actions() {
    let got = parse(
        r#"
            wibble = 3

            [[actions]]
            key = "1"
            label = "Tidy"
            command = "cat"
            "#,
    );
    assert_eq!(got.actions.len(), 1, "one bad key must not cost a good action");
    assert!(got.warnings.iter().any(|w| w.contains("wibble")));
}

#[test]
fn per_action_timeout_overrides_the_global_one() {
    let got = parse(
        r#"
            timeout_ms = 5000

            [[actions]]
            label = "Fast"
            key = "1"
            command = "cat"
            timeout_ms = 250

            [[actions]]
            label = "Inherits"
            key = "2"
            command = "cat"
            "#,
    );
    assert_eq!(got.timeout_for(0), 250);
    assert_eq!(got.timeout_for(1), 5000);
}

#[test]
fn an_unknown_index_gets_the_default_timeout() {
    let got = parse("");
    assert_eq!(got.timeout_for(99), DEFAULT_TIMEOUT_MS);
}

#[test]
fn the_starter_file_round_trips_to_exactly_the_built_in_defaults() {
    let want = defaults();
    let got = parse(&starter_file());
    assert!(got.warnings.is_empty(), "starter file must parse clean: {:?}", got.warnings);
    assert_eq!(got.actions.len(), want.actions.len(), "action count drifted");
    for (i, (g, w)) in got.actions.iter().zip(want.actions.iter()).enumerate() {
        assert_eq!(g.label, w.label, "action {i}: label drifted");
        assert_eq!(g.key, w.key, "action {i}: hotkey drifted");
        assert_eq!(g.command, w.command, "action {i}: command drifted from the built-in default");
    }
}

#[test]
fn the_starter_file_never_ships_the_command_that_broke_t015() {
    let text = starter_file();
    assert!(!text.contains("ollama run"), "starter file ships `ollama run`");
    for a in parse(&text).actions {
        assert!(
            !a.command.contains("ollama run"),
            "action {:?} still calls `ollama run`",
            a.label
        );
    }
}

#[test]
fn the_builtin_defaults_are_internally_consistent() {
    let d = defaults();
    assert_eq!(d.actions.len(), d.timeouts.len());
    let mut keys: Vec<char> = d.actions.iter().filter_map(|a| a.key).collect();
    let before = keys.len();
    keys.sort_unstable();
    keys.dedup();
    assert_eq!(before, keys.len(), "default hotkeys must be unique");
    assert!(d.actions.iter().all(|a| !a.command.trim().is_empty()));
}

#[test]
fn write_default_config_refuses_to_clobber_without_force() {
    let path = "/tmp/x/config.toml";
    assert!(write_default_config(path, false, false).is_ok());
    let err = write_default_config(path, true, false).unwrap_err();
    assert!(err.contains("already exists"));
    assert_eq!(err, "/tmp/x/config.toml already exists — pass --force to overwrite it");
    assert_eq!(write_default_config(path, true, true).unwrap(), starter_file());
}

#[test]
fn the_built_in_commands_carry_the_language_rule_once() {
    let d = defaults();
    let rule = "Reply in the SAME language as the input text. Never translate it.";
    for a in &d.actions {
        let count = a.command.matches(rule).count();
        assert_eq!(count, if a.label == "Translate to English" { 0 } else { 1 }, "{}", a.label);
    }
    assert_eq!(
        d.actions[2].command,
        "jq -Rs --arg m hermes3:8b --arg p 'Translate this text into English. If it is already in English, return it unchanged. Output only the resulting text, with no preamble, no explanation and no quotation marks.' '{model:$m,prompt:($p+\"\\n\\n\"+.),stream:false}' | curl -sf --max-time 110 http://localhost:11434/api/generate -d @- | jq -r '.response'"
    );
    assert!(d.used_defaults);
    assert_eq!(d.timeouts, vec![120_000; 5]);
}

#[test]
fn warnings_name_the_entry_and_the_reason() {
    let got = parse(
        "[[actions]]\ncommand = \"  \"\n[[actions]]\nkey = \"1\"\ncommand = \"cat\"\n\
         [[actions]]\nlabel = \"B\"\nkey = \"1\"\ncommand = \"cat\"\n\
         [[actions]]\nlabel = \"C\"\nkey = \"x\"\ncommand = \"cat\"\n\
         [[actions]]\nkey = \"\"\ncommand = \"cat\"\n",
    );
    assert_eq!(
        got.warnings,
        vec![
            "action 1 (\"action 1\") has no command — skipped",
            "action 3 (\"B\") reuses hotkey 1 — skipped",
            "action 4 (\"C\") has hotkey \"x\", must be 1-9 — skipped",
        ]
    );
    let labels: Vec<&str> = got.actions.iter().map(|a| a.label.as_str()).collect();
    assert_eq!(labels, vec!["action 2", "action 5"]);
    assert_eq!(got.actions[1].key, None);
}

#[test]
fn unknown_keys_are_named_in_order() {
    let got = parse("zeta = 1\naction = 2\n[[actions]]\ncommand = \"cat\"\n");
    assert_eq!(
        got.warnings,
        vec![
            "config has unknown key \"action\" (did you mean [[actions]]?) — ignored",
            "config has unknown key \"zeta\" — ignored",
        ]
    );
}

#[test]
fn a_value_of_the_wrong_type_falls_back_with_its_position() {
    for (text, at) in [
        ("actions = 3\n", "line 1, column 11"),
        ("\ntimeout_ms = \"x\"\n", "line 2, column 14"),
        ("timeout_ms = -1\n", "line 1, column 14"),
        ("# é\nactions = \"é\"\n", "line 2, column 11"),
    ] {
        let got = parse(text);
        assert!(got.used_defaults, "{text:?}");
        assert_eq!(got.actions.len(), 5);
        assert_eq!(
            got.warnings,
            vec![format!("config is not valid TOML (TOML parse error at {at}) — using defaults")],
            "{text:?}"
        );
    }
}

#[test]
fn a_malformed_entry_is_skipped_and_the_rest_still_load() {
    let got = parse(
        "[[actions]]\nlabel = 'A'\nkey = 1\ncommand = 'cat'\n\n[[actions]]\nlabel = 'B'\ncommand = 'cat'\n",
    );
    assert!(!got.used_defaults);
    assert_eq!(got.warnings, vec!["action 1 is malformed at line 3, column 7 — skipped"]);
    assert_eq!(got.actions.len(), 1);
    assert_eq!(got.actions[0].label, "B");
    assert_eq!(got.timeouts, vec![120000]);

    let big = "0xf_ffff_ffff_ffff_ffff_ffff_ffff_ffff_ffff";
    for (text, at) in [
        ("[[actions]]\nlabel = 1\n".to_string(), "line 2, column 9"),
        ("# é\n[[actions]]\ncommand = [\"é\"]\n".to_string(), "line 3, column 11"),
        ("actions = [\"é\"]\n".to_string(), "line 1, column 12"),
        ("[[actions]]\ncommand = \"cat\"\ntimeout_ms = -1\n".to_string(), "line 3, column 14"),
        (format!("[[actions]]\ncommand = \"cat\"\nnote = {big}\n"), "line 3, column 8"),
    ] {
        let got = parse(&text);
        assert!(!got.used_defaults && got.actions.is_empty(), "{text:?}");
        assert_eq!(
            got.warnings,
            vec![
                format!("action 1 is malformed at {at} — skipped"),
                "config defines no usable actions — the popup will edit and accept only".to_string(),
            ],
            "{text:?}"
        );
    }
    let two = parse("timeout_ms = 7\nactions = [{ command = \"cat\" }, 3, { command = \"tac\" }]\n");
    assert_eq!(two.warnings, vec!["action 2 is malformed at line 2, column 33 — skipped"]);
    assert_eq!(two.actions.len(), 2);
    assert_eq!(two.actions[1].command, "tac");
    assert_eq!(two.timeouts, vec![7, 7]);
}

#[test]
fn a_number_that_cannot_be_represented_is_at_fault_even_where_it_means_nothing() {
    let big = "9".repeat(40);
    for (text, at) in [
        ("x = 1e999\n".to_string(), "line 1, column 5"),
        (format!("x = {big}\n"), "line 1, column 5"),
        (format!("x = [1, {{ y = -{big} }}]\n"), "line 1, column 15"),
        // Keys are visited in the order of their names.
        ("zz = 1e999\nactions = 3\n".to_string(), "line 2, column 11"),
        ("aa = 1e999\nactions = 3\n".to_string(), "line 1, column 6"),
    ] {
        let got = parse(&text);
        assert!(got.used_defaults, "{text:?}");
        assert_eq!(
            got.warnings,
            vec![format!("config is not valid TOML (TOML parse error at {at}) — using defaults")],
            "{text:?}"
        );
    }
    // These can be represented, although no setting could hold them.
    let u128_max = "340282366920938463463374607431768211455";
    for text in ["x = inf\n".to_string(), format!("x = {u128_max}\n"), "x = 0b11\ny = 0o7\n".to_string()] {
        assert!(!parse(&text).used_defaults, "{text:?}");
    }
}

#[test]
fn positions_agree_with_the_parser() {
    let first = |e: toml::de::Error| e.to_string().lines().next().unwrap().to_string();
    let warned = |text: &str| {
        let w = parse(text).warnings[0].clone();
        w.trim_start_matches("config is not valid TOML (")
            .trim_end_matches(") — using defaults")
            .to_string()
    };
    for text in ["x = 1e999\n", "é = 1\ny = [1, { z = 1e999 }]\n", "a = = 1\n", "[[actions]\n"] {
        let e = toml::from_str::<serde::de::IgnoredAny>(text).unwrap_err();
        assert_eq!(warned(text), first(e), "{text:?}");
    }
    let text = "\n timeout_ms = \"é\"\n";
    let e = toml::from_str::<BTreeMap<String, u64>>(text).unwrap_err();
    assert_eq!(warned(text), first(e));
    for text in ["# é\n[[actions]]\ncommand = \"cat\"\n[[actions]]\nlabel = [\"é\"]\n", "actions = [{ command = \"cat\" }, 3]\n"] {
        let e = toml::from_str::<BTreeMap<String, Vec<BTreeMap<String, String>>>>(text).unwrap_err();
        let place = first(e).replace("TOML parse error", "action 2 is malformed");
        assert_eq!(parse(text).warnings, vec![format!("{place} — skipped")], "{text:?}");
    }
    let text = "actions = { a = 1 }\n";
    let e = toml::from_str::<BTreeMap<String, Vec<BTreeMap<String, String>>>>(text).unwrap_err();
    assert_eq!(warned(text), first(e));
}

#[test]
fn positions_count_characters_not_bytes() {
    assert_eq!(heading("a\né = 1", 4), "TOML parse error at line 2, column 2");
    assert_eq!(heading("", 0), "TOML parse error at line 1, column 1");
    assert_eq!(heading("ab", 99), "TOML parse error at line 1, column 3");
}

#[test]
fn a_syntax_error_is_reported_by_its_first_line() {
    let got = parse("a = = 1\n");
    assert_eq!(
        got.warnings,
        vec!["config is not valid TOML (TOML parse error at line 1, column 5) — using defaults"]
    );
}

#[test]
fn numbers_of_milliseconds_in_every_notation() {
    let got = parse("timeout_ms = 0x1_0\n[[actions]]\ncommand = \"cat\"\ntimeout_ms = +1_000\n[[actions]]\ncommand = \"cat\"\n");
    assert_eq!(got.timeouts, vec![1000, 16]);
}

#[test]
fn the_starter_file_quotes_every_built_in_action() {
    let text = starter_file();
    let set = defaults();
    assert_eq!(set.actions.len(), 5);
    for a in &set.actions {
        assert!(text.contains(&format!("label = \"{}\"\n", a.label)));
        assert!(text.contains(&format!("command = \"{}\"\n", toml_escape(&a.command))));
        assert!(!a.command.contains("ollama run"));
    }
}

#[test]
fn entries_may_be_written_inline() {
    let got = parse("actions = [{ label = \"A\", key = \"3\", command = \"cat\" }]\n");
    assert_eq!(got.actions.len(), 1);
    assert_eq!(got.actions[0].key, Some('3'));
    assert!(got.warnings.is_empty());
}

#[test]
fn a_config_that_is_absent_or_unreadable_leaves_the_defaults() {
    let absent = load(ConfigRead::Absent);
    assert!(absent.used_defaults);
    assert_eq!(absent.actions, defaults().actions);
    assert_eq!(absent.warnings, vec!["there is no config — using defaults"]);
    let bad = load(ConfigRead::Unreadable {
        path: "/x/config.toml".to_string(),
        error: "denied".to_string(),
    });
    assert!(bad.used_defaults);
    assert_eq!(bad.warnings, vec!["could not read /x/config.toml: denied — using defaults"]);
    let read = load(ConfigRead::Text("[[actions]]\ncommand = \"cat\"\n".to_string()));
    assert_eq!(read.actions.len(), 1);
}

#[test]
fn the_explicit_config_wins() {
    let place = |e, c, h| config_path(e, c, h).map(|p| (p.base, p.below));
    assert_eq!(place(true, true, true), Some((Base::Explicit, "")));
    assert_eq!(
        place(false, true, true),
        Some((Base::ConfigHome, "voxtype-review/config.toml"))
    );
    assert_eq!(
        place(false, false, true),
        Some((Base::Home, ".config/voxtype-review/config.toml"))
    );
    assert_eq!(place(false, false, false), None);
}

#[test]
fn an_escaped_value_reads_back() {
    assert_eq!(toml_escape("a\\b\"c"), "a\\\\b\\\"c");
    let raw = "say \\\"hi\\\" \\ 'x'";
    let got = parse(&format!("[[actions]]\ncommand = \"{}\"\n", toml_escape(raw)));
    assert_eq!(got.actions[0].command, raw);
}
