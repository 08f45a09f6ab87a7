use voxtype_review::action::{Action, ActionFailure, ActionOutcome};
use voxtype_review::config::{self, DEFAULT_TIMEOUT_MS};
use voxtype_review::http::{
    body_text, read_head, read_header, response_head, split_words, Header, BODY_LIMIT,
};
use voxtype_review::json::{esc, field, is_readable};
use voxtype_review::page::PAGE;
use voxtype_review::webui::{
    banner, bind_addr, defaults_json, listen_failure, reply_head, route, save, save_answer, save_voxtype,
    state_json, test_action, voxtype_json, voxtype_wiring, Route, Surroundings, Written,
    DEFAULT_PORT,
};

fn surroundings() -> Surroundings {
    Surroundings {
        path: "/c".to_string(),
        present: true,
        binary: "/b\"".to_string(),
        wired: false,
        wire_msg: "not".to_string(),
        xdotool: true,
        ollama: false,
    }
}

#[test]
fn the_listener_binds_loopback_and_nothing_else() {
    let addr = bind_addr(DEFAULT_PORT);
    assert!(addr.is_loopback(), "must bind loopback, got {addr:?}");
    assert_eq!(addr.ip(), "127.0.0.1");
}

#[test]
fn binding_is_loopback_at_every_port() {
    for p in [1024u16, 8765, 65535] {
        assert!(bind_addr(p).is_loopback());
        assert_eq!(bind_addr(p).port, p);
    }
}

#[test]
fn json_escapes_what_would_otherwise_break_the_page() {
    assert_eq!(esc(r#"a"b"#), r#"a\"b"#);
    assert_eq!(esc("a\\b"), "a\\\\b");
    assert_eq!(esc("a\nb"), "a\\nb");
    assert!(esc("a\u{7}b").contains("\\u0007"));
}

#[test]
fn field_reads_back_what_esc_wrote() {
    let body = format!("{{\"toml\":\"{}\"}}", esc("a\"b\nc\\d"));
    assert_eq!(field(&body, "toml").unwrap(), "a\"b\nc\\d");
}

#[test]
fn field_returns_none_for_an_absent_key() {
    assert!(field("{\"a\":\"1\"}", "b").is_none());
}

#[test]
fn a_saved_action_set_round_trips_through_the_real_loader() {
    let toml_text =
        "[[actions]]\nkey = \"1\"\nlabel = \"Tidy\"\ncommand = \"cat\"\ntimeout_ms = 5000\n";
    let parsed = config::parse(toml_text);
    assert_eq!(parsed.actions.len(), 1);
    assert_eq!(parsed.actions[0].label, "Tidy");
    assert_eq!(parsed.actions[0].key, Some('1'));
    assert_eq!(parsed.timeout_for(0), 5000);
    let body = format!("{{\"toml\":\"{}\"}}", esc(toml_text));
    let draft = save(&body).unwrap();
    assert_eq!(draft.toml, toml_text);
    assert_eq!(draft.count, 1);
}

#[test]
fn save_refuses_a_duplicate_hotkey_and_says_so() {
    let toml_text = "[[actions]]\nkey=\"1\"\nlabel=\"a\"\ncommand=\"cat\"\n\
                         [[actions]]\nkey=\"1\"\nlabel=\"b\"\ncommand=\"cat\"\n";
    let body = format!("{{\"toml\":\"{}\"}}", esc(toml_text));
    let r = save(&body).unwrap_err();
    assert_eq!(r.status, "400 Bad Request");
    assert!(r.body.contains("refused"), "{}", r.body);
    assert!(r.body.contains("reuses hotkey"), "{}", r.body);
    assert_eq!(
        r.body,
        "{\"ok\":false,\"error\":\"refused — the file on disk was not changed\",\"detail\":[\"action 2 (\\\"b\\\") reuses hotkey 1 — skipped\"]}"
    );
}

#[test]
fn save_refuses_an_entry_with_no_command() {
    let toml_text = "[[actions]]\nkey=\"1\"\nlabel=\"a\"\n";
    let body = format!("{{\"toml\":\"{}\"}}", esc(toml_text));
    let r = save(&body).unwrap_err();
    assert_eq!(r.status, "400 Bad Request");
    assert!(r.body.contains("has no command"), "{}", r.body);
}

#[test]
fn save_refuses_malformed_toml() {
    let body = format!("{{\"toml\":\"{}\"}}", esc("not = = toml [[["));
    let r = save(&body).unwrap_err();
    assert_eq!(r.status, "400 Bad Request");
    assert!(r.body.contains("not valid TOML"), "{}", r.body);
}

#[test]
fn save_without_a_toml_field_is_a_bad_request() {
    let r = save("{}").unwrap_err();
    assert_eq!(r.status, "400 Bad Request");
    assert_eq!(r.body, "{\"ok\":false,\"error\":\"no toml field\"}");
}

#[test]
fn reading_state_never_writes_to_the_config_file() {
    let original = "# a comment the operator wrote\n[[actions]]\nkey = \"1\"\nlabel = \"Keep\"\ncommand = \"cat\"\n";
    let json = state_json(&config::parse(original), &surroundings());
    assert!(json.contains("Keep"), "state should list the action: {json}");
    assert_eq!(route("GET", "/api/state"), Route::State);
}

#[test]
fn the_page_is_embedded_and_not_a_stub() {
    assert!(PAGE.contains("voxtype-review"));
    assert!(PAGE.len() > 2000, "page looks truncated: {} bytes", PAGE.len());
}

#[test]
fn the_state_is_one_json_object() {
    let set = config::parse("x = 1\n[[actions]]\nlabel = \"L\"\ncommand = \"cat \\\"a\\\"\"\n");
    assert_eq!(
        state_json(&set, &surroundings()),
        "{\"path\":\"/c\",\"exists\":true,\"using_defaults\":false,\"actions\":[{\"key\":\"\",\"label\":\"L\",\"command\":\"cat \\\"a\\\"\",\"timeout_ms\":120000}],\"warnings\":[\"config has unknown key \\\"x\\\" — ignored\"],\"binary\":\"/b\\\"\",\"wired\":false,\"wire_msg\":\"not\",\"xdotool\":true,\"ollama\":false}"
    );
}

#[test]
fn the_defaults_are_offered() {
    let j = defaults_json();
    assert!(j.starts_with("{\"actions\":[{\"key\":\"1\",\"label\":\"Tidy up\",\"command\":\"jq -Rs "));
    assert!(j.ends_with(",\"timeout_ms\":120000}]}"));
    assert_eq!(j.matches("\"key\":").count(), 5);
}

#[test]
fn only_posts_act() {
    assert_eq!(route("GET", "/"), Route::Page);
    assert_eq!(route("GET", "/?x=1"), Route::Page);
    assert_eq!(route("GET", "/api/defaults"), Route::Defaults);
    assert_eq!(route("GET", "/api/voxtype"), Route::Voxtype);
    assert_eq!(route("POST", "/api/save?a?b"), Route::Save);
    assert_eq!(route("POST", "/api/voxtype/save"), Route::VoxtypeSave);
    assert_eq!(route("POST", "/api/test"), Route::Test);
    assert_eq!(route("GET", "/api/save"), Route::NotFound);
    assert_eq!(route("PUT", "/"), Route::NotFound);
    assert_eq!(route("", ""), Route::NotFound);
}

#[test]
fn a_save_that_was_allowed_is_answered_by_how_it_ended() {
    let r = save_answer(3, Written::At("/c\"".to_string()));
    assert_eq!(r.status, "200 OK");
    assert_eq!(r.body, "{\"ok\":true,\"count\":3,\"path\":\"/c\\\"\"}");
    let r = save_answer(3, Written::NoPath);
    assert_eq!(r.status, "500 Internal Server Error");
    assert_eq!(r.body, "{\"ok\":false,\"error\":\"no config path\"}");
    let r = save_answer(3, Written::Failed("full".to_string()));
    assert_eq!(r.status, "500 Internal Server Error");
    assert_eq!(r.body, "{\"ok\":false,\"error\":\"full\"}");
}

#[test]
fn trying_an_action_reports_the_diagnosis() {
    let body = "{\"command\":\"cat\",\"text\":\"hi\",\"timeout_ms\":\"250\"}";
    let r = test_action(body, |a: &Action, t: &str, ms: u64| {
        assert_eq!((a.label.as_str(), a.key, a.command.as_str()), ("test", None, "cat"));
        assert_eq!((t, ms), ("hi", 250));
        ActionOutcome { text: "hi\n".to_string(), failure: None }
    });
    assert_eq!(r, "{\"ok\":true,\"failed\":false,\"output\":\"hi\\n\"}");
    let r = test_action("{\"command\":\"x\"}", |_: &Action, t: &str, ms: u64| {
        assert_eq!((t, ms), ("", DEFAULT_TIMEOUT_MS));
        ActionOutcome {
            text: "".to_string(),
            failure: Some(ActionFailure::Empty { stderr: None }),
        }
    });
    assert_eq!(
        r,
        "{\"ok\":true,\"failed\":true,\"error\":\"the action produced no output\",\"output\":\"\"}"
    );
    let never = |_: &Action, _: &str, _: u64| -> ActionOutcome { panic!("nothing to run") };
    assert_eq!(
        test_action("{\"command\":\" \"}", never),
        "{\"ok\":false,\"error\":\"no command\"}"
    );
}

#[test]
fn the_voxtype_settings_are_shown_or_why_not() {
    let j = voxtype_json("/v", Ok("[whisper]\nmodel = \"tiny\"\n".to_string()));
    assert!(j.starts_with("{\"path\":\"/v\",\"ok\":true,\"settings\":[{\"id\":\"language\",\"value\":\"\",\"present\":false,\"help\":\"One language"));
    assert!(j.contains("{\"id\":\"model\",\"value\":\"tiny\",\"present\":true,"));
    assert_eq!(
        voxtype_json("/v", Err("gone".to_string())),
        "{\"path\":\"/v\",\"ok\":false,\"error\":\"gone\",\"settings\":[]}"
    );
    assert_eq!(
        voxtype_json("/v", Ok("= 1".to_string())),
        "{\"path\":\"/v\",\"ok\":false,\"error\":\"TOML parse error at line 1, column 1\",\"settings\":[]}"
    );
}

#[test]
fn a_setting_is_saved_where_both_parts_are_given() {
    let ok = |id: &str, value: &str| {
        assert_eq!((id, value), ("model", "tiny"));
        Ok("no change".to_string())
    };
    let r = save_voxtype("{\"id\":\"model\",\"value\":\"tiny\"}", ok);
    assert_eq!((r.status, r.body.as_str()), ("200 OK", "{\"ok\":true,\"message\":\"no change\"}"));
    let bad = |_: &str, _: &str| Err("no \"x\"".to_string());
    let r = save_voxtype("{\"id\":\"x\",\"value\":\"\"}", bad);
    assert_eq!(r.status, "400 Bad Request");
    assert_eq!(r.body, "{\"ok\":false,\"error\":\"no \\\"x\\\"\"}");
    let never = |_: &str, _: &str| -> Result<String, String> { panic!("nothing to save") };
    let r = save_voxtype("{\"id\":\"x\"}", never);
    assert_eq!(r.status, "400 Bad Request");
    assert_eq!(r.body, "{\"ok\":false,\"error\":\"need id and value\"}");
}

#[test]
fn wiring_is_read_from_the_config() {
    assert_eq!(voxtype_wiring("/v", None), (false, "no Voxtype config at /v".to_string()));
    assert_eq!(
        voxtype_wiring("/v", Some("x\n  command = \"/bin/voxtype-review\"\n")),
        (true, "wired in /v".to_string())
    );
    assert_eq!(
        voxtype_wiring("/v", Some("# command = \"voxtype-review\"\ncommand = \"cat\"\n")),
        (false, "not wired in /v — run ./install.sh --wire".to_string())
    );
}

#[test]
fn fields_are_found_behind_their_key() {
    assert_eq!(field("{\"a\" : \"x\\ty\\/z\"}", "a").unwrap(), "x\ty/z");
    assert_eq!(field("{\"a\":\"open", "a").unwrap(), "open");
    assert_eq!(field("{\"a\":\"é\\", "a").unwrap(), "é\\");
    // A number has no quotes, so the next string is taken.
    assert_eq!(field("{\"a\":1,\"b\":\"c\"}", "a").unwrap(), "b");
    // A numeric escape is decoded where it names a character.
    assert_eq!(field("{\"a\":\"\\u0007\"}", "a").unwrap(), "\u{7}");
    assert_eq!(field("{\"a\":\"x\\u00E9\\u20acy\"}", "a").unwrap(), "xé€y");
    assert_eq!(field("{\"a\":\"x\\by\\f\"}", "a").unwrap(), "x\u{8}y\u{c}");
    assert_eq!(field("{\"a\":\"\\ud800\"}", "a").unwrap(), "ud800");
    assert_eq!(field("{\"a\":\"\\u00g0\"}", "a").unwrap(), "u00g0");
    assert_eq!(field("{\"a\":\"\\u12\"}", "a").unwrap(), "u12");
    let every: String = (0..=0x7f_u8).map(char::from).collect();
    assert_eq!(field(&format!("{{\"a\":\"{}\"}}", esc(&every)), "a").unwrap(), every);
    assert!(is_readable("{\"a\":\"é\"}", "a"));
    assert!(!is_readable("{\"a\":\"\\é\"}", "a"));
    assert!(is_readable("{}", "a"));
}

#[test]
fn every_route_has_its_status_and_content_type() {
    assert_eq!(reply_head(route("GET", "/")), ("200 OK", "text/html; charset=utf-8"));
    assert_eq!(reply_head(route("GET", "/nowhere")), ("404 Not Found", "text/plain"));
    for (method, path) in [("GET", "/api/state"), ("POST", "/api/save"), ("POST", "/api/test")] {
        assert_eq!(reply_head(route(method, path)), ("200 OK", "application/json"));
    }
}

#[test]
fn heads_of_requests_are_read() {
    let lines = |l: &[&str]| l.iter().map(|s| s.to_string()).collect::<Vec<String>>();
    let h = read_head("POST  /api/save HTTP/1.1\r\n", &lines(&["Host: x\r\n", "CONTENT-Length: 12 \r\n"]))
        .unwrap();
    assert_eq!((h.method.as_str(), h.path.as_str(), h.length), ("POST", "/api/save", 12));
    let h = read_head("", &vec![]).unwrap();
    assert_eq!((h.method.as_str(), h.path.as_str(), h.length), ("", "/", 0));
    let h = read_head("GET", &lines(&["content-length: 5", "content-length: x"])).unwrap();
    assert_eq!((h.path.as_str(), h.length), ("/", 0));
    assert_eq!(
        read_head("GET /", &lines(&["content-length: 1000001"])).unwrap_err(),
        "request body too large"
    );
    assert_eq!(read_head("GET /", &lines(&["content-length: 1000000"])).unwrap().length, BODY_LIMIT);
    assert_eq!(read_header(None), Header::End);
    assert_eq!(read_header(Some("\r\n")), Header::End);
    assert_eq!(read_header(Some("Accept: x\r\n")), Header::Other);
    assert_eq!(read_header(Some("Content-Length:+7\r\n")), Header::Length(7));
    assert_eq!(split_words(" a\tbc\u{a0}d \n"), vec!["a", "bc", "d"]);
    assert_eq!(body_text(b"a\xffb"), "a\u{fffd}b");
}

#[test]
fn responses_count_bytes() {
    assert_eq!(
        response_head("200 OK", "text/plain", "é"),
        "HTTP/1.1 200 OK\r\nContent-Type: text/plain\r\nContent-Length: 2\r\nCache-Control: no-store\r\nConnection: close\r\n\r\n"
    );
}

#[test]
fn the_banner_names_the_file_and_the_port() {
    assert_eq!(
        banner(8765, Some("/c".to_string())),
        "voxtype-review config page\n  http://127.0.0.1:8765/\n\n  editing: /c\n  bound to 127.0.0.1 only — not reachable from the network\n  Ctrl+C to stop\n"
    );
    assert!(banner(1, None).contains("editing: (no config path)\n"));
    assert_eq!(
        listen_failure(80, "denied"),
        "cannot listen on 127.0.0.1:80: denied\nAnother copy may already be running; try --port <N>."
    );
}

#[test]
fn escaped_text_cannot_end_its_string() {
    for raw in ["\"", "\\", "\\\"", "\u{7}\"\u{1f}", "a\"}{\"b", "\n\r\t"] {
        let e = esc(raw);
        let mut escaped = false;
        for c in e.chars() {
            if escaped {
                escaped = false;
            } else {
                assert_ne!(c, '"', "{raw:?}");
                escaped = c == '\\';
            }
        }
        assert!(!escaped, "{raw:?}");
    }
}

#[test]
fn what_the_page_accepts_the_popup_loads() {
    let good = "[[actions]]\ncommand = \"a\"\n[[actions]]\nkey = \"2\"\ncommand = \"b\"\n";
    for toml in [good, "", "x = 1\n", "actions = []\n"] {
        let draft = save(&format!("{{\"toml\":\"{}\"}}", esc(toml))).unwrap();
        let set = config::parse(&draft.toml);
        assert!(!set.used_defaults);
        assert_eq!(set.actions.len(), draft.count);
        assert_eq!(draft.count, toml.matches("[[actions]]").count());
    }
}
