use std::collections::BTreeMap;

use voxtype_review::edit::set_key;
use voxtype_review::place::Base;
use voxtype_review::voxtype_config::{
    backup, field, fields, literal, path, quote, read, save, unchanged, written, Kind,
    SaveStep,
};

const SAMPLE: &str = r#"# voxtype configuration
# Hand-written, with comments that matter.

[hotkey]
key = "RIGHTCTRL"       # push to talk
modifiers = []

[whisper]
# .en models are English-only but faster.
model = "large-v3-turbo"

# Single language: "en". Several: ["en", "nl"].
language = "en"
initial_prompt = "A technical conversation."

[output]
# "paste" goes via the clipboard.
mode = "paste"
"#;

fn value(text: &str, id: &str) -> String {
    read(text).unwrap().iter().find(|s| s.id == id).unwrap().value.clone()
}

#[test]
fn reads_every_surfaced_setting() {
    let s = read(SAMPLE).unwrap();
    let get = |id: &str| s.iter().find(|x| x.id == id).unwrap();
    assert_eq!(get("language").value, "en");
    assert_eq!(get("model").value, "large-v3-turbo");
    assert_eq!(get("output_mode").value, "paste");
    assert_eq!(get("hotkey_key").value, "RIGHTCTRL");
    assert!(get("initial_prompt").present);
}

#[test]
fn a_missing_key_is_absent_not_an_error() {
    let s = read("[whisper]\nmodel = \"tiny\"\n").unwrap();
    let lang = s.iter().find(|x| x.id == "language").unwrap();
    assert!(!lang.present);
    assert_eq!(lang.value, "");
}

#[test]
fn editing_one_key_leaves_every_comment_and_every_other_line_alone() {
    let out = set_key(SAMPLE, "whisper", "language", r#"["en", "nl"]"#);
    assert!(out.contains(r#"language = ["en", "nl"]"#));
    let before: Vec<&str> = SAMPLE.lines().collect();
    let after: Vec<&str> = out.lines().collect();
    assert_eq!(before.len(), after.len(), "line count changed");
    for (b, a) in before.iter().zip(after.iter()) {
        if b.trim_start().starts_with("language") {
            continue;
        }
        assert_eq!(b, a, "an unrelated line changed");
    }
}

#[test]
fn the_same_key_in_another_table_is_not_touched() {
    let src = "[other]\nkey = \"leave me\"\n\n[hotkey]\nkey = \"RIGHTCTRL\"\n";
    let out = set_key(src, "hotkey", "key", "\"F9\"");
    assert!(out.contains("key = \"leave me\""), "wrote into the wrong table");
    assert!(out.contains("key = \"F9\""), "did not write the right table");
    assert!(!out.contains("\"RIGHTCTRL\""), "old value survived");
}

#[test]
fn a_commented_out_key_counts_as_absent_and_the_comment_survives() {
    let src = "[whisper]\n# language = \"de\"\nmodel = \"tiny\"\n";
    let out = set_key(src, "whisper", "language", "\"nl\"");
    assert!(out.contains("# language = \"de\""), "the comment was consumed");
    assert!(out.contains("language = \"nl\""));
}

#[test]
fn a_missing_table_is_appended_rather_than_dropped() {
    let out = set_key("[whisper]\nmodel = \"tiny\"\n", "output", "mode", "\"paste\"");
    assert!(out.contains("[output]"));
    assert!(out.contains("mode = \"paste\""));
    toml::from_str::<toml::Value>(&out).expect("must still parse");
    assert_eq!(out, "[whisper]\nmodel = \"tiny\"\n\n[output]\nmode = \"paste\"\n");
}

#[test]
fn language_round_trips_in_both_of_its_forms() {
    let f = field("language").unwrap();
    let one = set_key(SAMPLE, "whisper", "language", &literal(&f, "nl").unwrap());
    assert_eq!(value(&one, "language"), "nl");
    let many = set_key(SAMPLE, "whisper", "language", &literal(&f, "en, nl, de").unwrap());
    assert!(many.contains(r#"language = ["en", "nl", "de"]"#));
    assert_eq!(value(&many, "language"), "en, nl, de");
}

#[test]
fn the_file_still_parses_after_every_field_is_written() {
    let mut text = SAMPLE.to_string();
    for f in fields() {
        let lit =
            literal(&f, if f.kind == Kind::StrOrList { "en, nl" } else { "value" }).unwrap();
        text = set_key(&text, f.table, f.key, &lit);
    }
    toml::from_str::<toml::Value>(&text).expect("whole file must parse");
}

#[test]
fn a_value_that_cannot_be_represented_is_refused_not_guessed() {
    let lang = field("language").unwrap();
    assert!(literal(&lang, "").is_err(), "empty language accepted");
    assert!(literal(&lang, "en; rm -rf /").is_err(), "non-tag accepted");
    let model = field("model").unwrap();
    assert!(literal(&model, "  ").is_err(), "empty model accepted");
    assert!(literal(&model, "a\nb").is_err(), "multi-line accepted");
}

#[test]
fn quotes_and_backslashes_in_a_prompt_survive_the_round_trip() {
    let f = field("initial_prompt").unwrap();
    let raw = r#"He said "hi" \ then left"#;
    let out = set_key(SAMPLE, "whisper", "initial_prompt", &literal(&f, raw).unwrap());
    assert_eq!(value(&out, "initial_prompt"), raw);
}

#[test]
fn saving_refuses_an_unknown_setting() {
    let e = save("not_a_setting", "x", "/p", Ok(SAMPLE.to_string())).unwrap_err();
    assert_eq!(e, "unknown setting \"not_a_setting\"");
}

#[test]
fn a_second_backup_in_the_same_second_does_not_clobber_the_first() {
    let mut beside: BTreeMap<String, String> = BTreeMap::new();
    let mut content = "original\n";
    let mut back_up = |content: &str| {
        let mut made = None;
        let name = backup("/p/config.toml", 1700, |e: &str| beside.contains_key(e), |e: &str| {
            made = Some((e.to_string(), content.to_string()));
            Ok(())
        });
        beside.extend(made);
        (name, beside.clone())
    };
    let first = back_up(content).0.unwrap();
    content = "changed\n";
    let (second, files) = back_up(content);
    let second = second.unwrap();
    assert_ne!(first, second, "the same backup name was reused");
    assert_eq!(first, "toml.bak-1700");
    assert_eq!(second, "toml.bak-1700-1");
    assert_eq!(files[&first], "original\n");
    assert_eq!(files[&second], "changed\n");

    let copied = |_: &str| Ok(());
    let below = |n: u32| move |e: &str| {
        e == "toml.bak-1700" || e["toml.bak-1700-".len()..].parse::<u32>().unwrap() < n
    };
    assert_eq!(backup("/p", 1700, below(99), copied).unwrap(), "toml.bak-1700-99");
    assert_eq!(
        backup("/p", 1700, below(100), copied).unwrap_err(),
        "too many backups in the same second"
    );
}

#[test]
fn backing_up_a_file_that_is_not_there_fails_so_the_write_never_happens() {
    let gone = |_: &str| Err("No such file or directory (os error 2)".to_string());
    let free = |_: &str| false;
    assert!(backup("/nonexistent/dir/config.toml", 1700, free, gone).is_err());
    assert_eq!(
        backup("/nonexistent/dir/config.toml", 1700, free, gone).unwrap_err(),
        "could not back up /nonexistent/dir/config.toml: No such file or directory (os error 2)"
    );
    assert_eq!(written("/p", "/p.bak", Ok(())).unwrap(), "saved — backup at /p.bak");
    assert_eq!(
        written("/p", "/p.bak", Err("full".to_string())).unwrap_err(),
        "could not write /p: full"
    );
}

#[test]
fn saving_replaces_leaves_alone_or_refuses() {
    match save("model", "tiny", "/p", Ok(SAMPLE.to_string())).unwrap() {
        SaveStep::Replace(t) => assert_eq!(t, SAMPLE.replace("large-v3-turbo", "tiny")),
        other => panic!("{other:?}"),
    }
    assert!(matches!(
        save("model", "large-v3-turbo", "/p", Ok(SAMPLE.to_string())),
        Ok(SaveStep::Unchanged)
    ));
    assert_eq!(
        save("model", "", "/p", Ok(SAMPLE.to_string())).unwrap_err(),
        "model cannot be empty"
    );
    assert_eq!(
        save("model", "tiny", "/p", Err("gone".to_string())).unwrap_err(),
        "could not read /p: gone"
    );
    let broken = save("model", "tiny", "/p", Ok("x = = 1\n".to_string())).unwrap_err();
    assert_eq!(broken, "edit would break the config: TOML parse error at line 1, column 5");
    // A control character is escaped, and reads back.
    match save("model", "a\u{7f}b\u{1}", "/p", Ok(SAMPLE.to_string())).unwrap() {
        SaveStep::Replace(t) => {
            assert_eq!(t, SAMPLE.replace("large-v3-turbo", "a\\u007fb\\u0001"));
            let table: toml::Table = t.parse().unwrap();
            assert_eq!(table["whisper"]["model"].as_str(), Some("a\u{7f}b\u{1}"));
        },
        other => panic!("{other:?}"),
    }
    assert_eq!(unchanged(), "no change");
}

#[test]
fn a_saved_value_is_shown_as_it_was_saved() {
    for (id, value, shown) in [
        ("model", "  a \"b\" \\ c\u{7f} ", "a \"b\" \\ c\u{7f}"),
        ("language", " en ,, nl ", "en, nl"),
        ("language", "zh-TW", "zh-TW"),
        ("initial_prompt", "é", "é"),
    ] {
        let saved = match save(id, value, "/p", Ok(SAMPLE.to_string())).unwrap() {
            SaveStep::Replace(t) => t,
            other => panic!("{other:?}"),
        };
        for (before, after) in read(SAMPLE).unwrap().iter().zip(read(&saved).unwrap().iter()) {
            assert_eq!(before.id, after.id);
            if after.id == id {
                assert!(after.present);
                assert_eq!(after.value, shown);
            } else {
                assert_eq!((&before.value, before.present), (&after.value, after.present));
            }
        }
    }
}

#[test]
fn the_last_value_saved_wins() {
    let saved = |value: &str, file: &str| match save("model", value, "/p", Ok(file.to_string())).unwrap() {
        SaveStep::Replace(t) => t,
        other => panic!("{other:?}"),
    };
    for file in [SAMPLE, "", "x = 1\r\n[whisper]\r\n  model = \"m\"\r\n", "[whisper]"] {
        assert_eq!(saved("small", &saved("tiny", file)), saved("small", file));
    }
}

#[test]
fn saving_twice_changes_nothing_more() {
    let once = match save("language", "en,nl", "/p", Ok(SAMPLE.to_string())).unwrap() {
        SaveStep::Replace(t) => t,
        other => panic!("{other:?}"),
    };
    assert!(matches!(save("language", "en,nl", "/p", Ok(once)), Ok(SaveStep::Unchanged)));
}

#[test]
fn values_are_refused_with_a_reason() {
    let lang = field("language").unwrap();
    let model = field("model").unwrap();
    assert_eq!(literal(&lang, " , ").unwrap_err(), "language needs at least one language");
    assert_eq!(literal(&lang, "en, x y").unwrap_err(), "\"x y\" is not a language tag");
    assert_eq!(literal(&model, "a\rb").unwrap_err(), "value must be a single line");
    assert_eq!(literal(&lang, "zh-TW").unwrap(), "\"zh-TW\"");
    assert_eq!(literal(&lang, "en,,nl ,").unwrap(), "[\"en\", \"nl\"]");
    assert!(field("nothing").is_none());
}

#[test]
fn quoting_escapes_what_toml_cannot_hold() {
    assert_eq!(quote("a\"b\\c\td\u{1}e"), "\"a\\\"b\\\\c\\td\\u0001e\"");
    let doc: toml::Value =
        toml::from_str(&format!("x = {}", quote("a\"b\\c\td\u{1}\u{1f}é"))).unwrap();
    assert_eq!(doc["x"].as_str(), Some("a\"b\\c\td\u{1}\u{1f}é"));
}

#[test]
fn values_that_are_no_texts_are_shown() {
    assert_eq!(value("[whisper]\nlanguage = [\"en\", 3, \"nl\"]\n", "language"), "en, nl");
    assert_eq!(value("[whisper]\nmodel = 3\n", "model"), "3");
    assert_eq!(value("[whisper]\nmodel = true\n", "model"), "true");
    assert_eq!(value("[whisper.model]\na = 1\n", "model"), "{ a = 1 }");
    assert!(!read("whisper = 3\n").unwrap()[0].present);
    assert_eq!(read("a = = 1").err(), Some("TOML parse error at line 1, column 5".to_string()));
}

#[test]
fn edits_keep_line_endings_and_indentation() {
    assert_eq!(
        set_key("[a]\r\n  k = 1\r\nz = 2\r\n", "a", "k", "9"),
        "[a]\r\n  k = 9\r\nz = 2\r\n"
    );
    assert_eq!(set_key("[a]\nk=1", "a", "k", "9"), "[a]\nk = 9");
    assert_eq!(set_key("[a]\nkey = 1\n", "a", "k", "9"), "[a]\nk = 9\nkey = 1\n");
    assert_eq!(set_key("", "a", "k", "9"), "\n[a]\nk = 9");
    // The last header of the table is where a new key goes.
    assert_eq!(set_key("[a]\n[b]\n[a]\n", "a", "k", "9"), "[a]\n[b]\n[a]\nk = 9\n");
}

#[test]
fn the_voxtype_config_is_found() {
    let at = |e, h| {
        let p = path(e, h);
        (p.base, p.below)
    };
    assert_eq!(at(true, true), (Base::Explicit, ""));
    assert_eq!(at(false, true), (Base::Home, ".config/voxtype/config.toml"));
    assert_eq!(at(false, false), (Base::Here, ".config/voxtype/config.toml"));
}

#[test]
fn a_list_as_it_is_shown_saves_the_same() {
    let lang = field("language").unwrap();
    let saved = literal(&lang, " en,nl , ,de").unwrap();
    let shown = value(&set_key(SAMPLE, "whisper", "language", &saved), "language");
    assert_eq!(shown, "en, nl, de");
    assert_eq!(literal(&lang, &shown).unwrap(), saved);
}

#[test]
fn an_id_names_one_setting() {
    let ids: Vec<&str> = fields().iter().map(|f| f.id).collect();
    assert_eq!(ids, vec!["language", "model", "initial_prompt", "output_mode", "hotkey_key"]);
    for id in ids {
        assert_eq!(field(id).unwrap().id, id);
    }
}
