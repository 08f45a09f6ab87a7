//! The config page: what each request is answered, and what it may change.
//!
//! The page edits a file whose contents are executed as shell commands on every
//! dictation. So it is bound to this machine alone, only a POST can change
//! anything, and what it accepts is what the popup will load.

use vstd::prelude::*;

use crate::action::{Action, ActionOutcome, ActionView, OutcomeView};
use crate::config::{Loaded, LoadedView};
use crate::config;
use crate::json;
use crate::text;
use crate::toml_doc;
use crate::voxtype_config::{Setting, SettingView};
use crate::voxtype_config;

verus! {

// ---------------------------------------------------------------------------
// Listening
// ---------------------------------------------------------------------------

/// The port that is used unless another is asked for.
pub const DEFAULT_PORT: u16 = 8765;

/// An address to listen on: the four parts of an IP address, and a port.
#[derive(Clone, Copy, PartialEq, Eq, Debug, Structural)]
pub struct Address {
    pub a: u8,
    pub b: u8,
    pub c: u8,
    pub d: u8,
    pub port: u16,
}

impl Address {
    /// The address can be reached from this machine only.
    pub open spec fn loopback(&self) -> bool {
        self.a == 127
    }

    /// Whether the address can be reached from this machine only.
    pub fn is_loopback(&self) -> (r: bool)
        ensures
            r == self.loopback(),
    {
        self.a == 127
    }

    /// The IP address in dotted form.
    pub open spec fn dotted(&self) -> Seq<char> {
        text::decimal(self.a as nat) + "."@ + text::decimal(self.b as nat) + "."@ + text::decimal(
            self.c as nat,
        ) + "."@ + text::decimal(self.d as nat)
    }

    /// The IP address in dotted form.
    pub fn ip(&self) -> (r: String)
        ensures
            r@ == self.dotted(),
    {
        let mut r = text::to_decimal(self.a as u128);
        r.append(".");
        r.append(text::to_decimal(self.b as u128).as_str());
        r.append(".");
        r.append(text::to_decimal(self.c as u128).as_str());
        r.append(".");
        r.append(text::to_decimal(self.d as u128).as_str());
        r
    }
}

/// The address that the page is served on: this machine, at any port.
pub fn bind_addr(port: u16) -> (r: Address)
    ensures
        r == (Address { a: 127, b: 0, c: 0, d: 1, port }),
        r.loopback(),
{
    Address { a: 127, b: 0, c: 0, d: 1, port }
}

/// How a port that cannot be listened on is reported.
pub fn listen_failure(port: u16, error: &str) -> (r: String)
    ensures
        r@ == "cannot listen on 127.0.0.1:"@ + text::decimal(port as nat) + ": "@ + error@
            + "\nAnother copy may already be running; try --port <N>."@,
{
    let mut r = "cannot listen on 127.0.0.1:".to_string();
    r.append(text::to_decimal(port as u128).as_str());
    r.append(": ");
    r.append(error);
    r.append("\nAnother copy may already be running; try --port <N>.");
    r
}

/// What is printed once the page is served.
pub fn banner(port: u16, path: Option<String>) -> (r: String)
    ensures
        r@ == "voxtype-review config page\n  http://127.0.0.1:"@ + text::decimal(port as nat)
            + "/\n\n  editing: "@ + (match path {
            Some(p) => p@,
            None => "(no config path)"@,
        })
            + "\n  bound to 127.0.0.1 only — not reachable from the network\n  Ctrl+C to stop\n"@,
{
    let mut r = "voxtype-review config page\n  http://127.0.0.1:".to_string();
    r.append(text::to_decimal(port as u128).as_str());
    r.append("/\n\n  editing: ");
    match path {
        Some(p) => {
            r.append(p.as_str());
        },
        None => {
            r.append("(no config path)");
        },
    }
    r.append("\n  bound to 127.0.0.1 only — not reachable from the network\n  Ctrl+C to stop\n");
    r
}

// ---------------------------------------------------------------------------
// Routes
// ---------------------------------------------------------------------------

/// What a request asks for.
#[derive(Clone, Copy, PartialEq, Eq, Debug, Structural)]
pub enum Route {
    Page,
    State,
    Save,
    Defaults,
    Voxtype,
    VoxtypeSave,
    Test,
    NotFound,
}

/// A path up to its query.
pub open spec fn before_query(path: Seq<char>) -> Seq<char> {
    path.take(text::index_or_len(path, '?'))
}

/// What a method and a path without a query ask for.
pub open spec fn route_of(method: Seq<char>, path: Seq<char>) -> Route {
    if method == "GET"@ && path == "/"@ {
        Route::Page
    } else if method == "GET"@ && path == "/api/state"@ {
        Route::State
    } else if method == "POST"@ && path == "/api/save"@ {
        Route::Save
    } else if method == "GET"@ && path == "/api/defaults"@ {
        Route::Defaults
    } else if method == "GET"@ && path == "/api/voxtype"@ {
        Route::Voxtype
    } else if method == "POST"@ && path == "/api/voxtype/save"@ {
        Route::VoxtypeSave
    } else if method == "POST"@ && path == "/api/test"@ {
        Route::Test
    } else {
        Route::NotFound
    }
}

/// What a request asks for.
pub fn route(method: &str, path: &str) -> (r: Route)
    ensures
        r == route_of(method@, before_query(path@)),
{
    let parts = text::split(path, '?');
    assert(text::pieces(path@, '?').len() > 0 && text::pieces(path@, '?')[0] == before_query(
        path@,
    )) by {
        text::lemma_index_or_len(path@, '?');
    }
    assert(text::texts(parts@)[0] == parts@[0]@);
    let p = parts[0].as_str();
    if text::same(method, "GET") && text::same(p, "/") {
        Route::Page
    } else if text::same(method, "GET") && text::same(p, "/api/state") {
        Route::State
    } else if text::same(method, "POST") && text::same(p, "/api/save") {
        Route::Save
    } else if text::same(method, "GET") && text::same(p, "/api/defaults") {
        Route::Defaults
    } else if text::same(method, "GET") && text::same(p, "/api/voxtype") {
        Route::Voxtype
    } else if text::same(method, "POST") && text::same(p, "/api/voxtype/save") {
        Route::VoxtypeSave
    } else if text::same(method, "POST") && text::same(p, "/api/test") {
        Route::Test
    } else {
        Route::NotFound
    }
}

/// The status and the content type that a request is answered with, where
/// nothing goes wrong.
pub open spec fn reply_head_of(r: Route) -> (Seq<char>, Seq<char>) {
    match r {
        Route::Page => ("200 OK"@, "text/html; charset=utf-8"@),
        Route::NotFound => ("404 Not Found"@, "text/plain"@),
        _ => ("200 OK"@, "application/json"@),
    }
}

/// The status and the content type that a request is answered with, where
/// nothing goes wrong. An answer that reports an error has a status of its own.
pub fn reply_head(r: Route) -> (head: (&'static str, &'static str))
    ensures
        (head.0@, head.1@) == reply_head_of(r),
{
    match r {
        Route::Page => ("200 OK", "text/html; charset=utf-8"),
        Route::NotFound => ("404 Not Found", "text/plain"),
        _ => ("200 OK", "application/json"),
    }
}

/// A request that writes a file or runs a command.
pub open spec fn acts(r: Route) -> bool {
    r == Route::Save || r == Route::VoxtypeSave || r == Route::Test
}

/// Looking changes nothing: only a POST writes a file or runs a command.
pub proof fn law_only_a_post_acts(method: Seq<char>, path: Seq<char>)
    requires
        acts(route_of(method, path)),
    ensures
        method == "POST"@,
{
}

// ---------------------------------------------------------------------------
// The state of the action set
// ---------------------------------------------------------------------------

/// A truth value in JSON.
pub open spec fn truth(b: bool) -> Seq<char> {
    if b {
        "true"@
    } else {
        "false"@
    }
}

fn push_bool(out: &mut String, b: bool)
    ensures
        final(out)@ == old(out)@ + truth(b),
{
    if b {
        out.append("true");
    } else {
        out.append("false");
    }
}

/// An action in JSON.
pub open spec fn action_object(a: ActionView, ms: u64) -> Seq<char> {
    let key = match a.key {
        Some(c) => json::escaped(seq![c]),
        None => json::escaped(seq![]),
    };
    "{\"key\":\""@ + key + "\",\"label\":\""@ + json::escaped(a.label) + "\",\"command\":\""@
        + json::escaped(a.command) + "\",\"timeout_ms\":"@ + text::decimal(ms as nat) + "}"@
}

/// The actions of a set in JSON, with commas between them.
pub open spec fn action_objects(set: LoadedView) -> Seq<char> {
    text::joined(
        Seq::new(
            set.actions.len(),
            |i: int| action_object(set.actions[i], config::time_of(set.timeouts, i)),
        ),
        ","@,
    )
}

/// A JSON string.
pub open spec fn string_of(s: Seq<char>) -> Seq<char> {
    "\""@ + json::escaped(s) + "\""@
}

/// JSON strings, with commas between them.
pub open spec fn strings_of(list: Seq<Seq<char>>) -> Seq<char> {
    text::joined(list.map_values(|s: Seq<char>| string_of(s)), ","@)
}

fn write_action(a: &Action, ms: u64) -> (r: String)
    ensures
        r@ == action_object(a@, ms),
{
    let mut key = String::new();
    match a.key {
        Some(c) => {
            key.push(c);
            assert(key@ =~= seq![c]);
        },
        None => {
            assert(key@ =~= seq![]);
        },
    }
    let mut r = "{\"key\":\"".to_string();
    r.append(json::esc(key.as_str()).as_str());
    r.append("\",\"label\":\"");
    r.append(json::esc(a.label.as_str()).as_str());
    r.append("\",\"command\":\"");
    r.append(json::esc(a.command.as_str()).as_str());
    r.append("\",\"timeout_ms\":");
    r.append(text::to_decimal(ms as u128).as_str());
    r.append("}");
    r
}

fn write_actions(set: &Loaded) -> (r: String)
    ensures
        r@ == action_objects(set@),
{
    let ghost views = set@.actions;
    let ghost want = Seq::new(
        views.len(),
        |i: int| action_object(views[i], config::time_of(set@.timeouts, i)),
    );
    let mut items: Vec<String> = Vec::new();
    let mut i: usize = 0;
    assert(text::texts(items@) =~= want.take(0));
    while i < set.actions.len()
        invariant
            i <= set.actions@.len(),
            views == set@.actions,
            want == Seq::new(
                views.len(),
                |i: int| action_object(views[i], config::time_of(set@.timeouts, i)),
            ),
            text::texts(items@) == want.take(i as int),
        decreases set.actions@.len() - i,
    {
        let ghost before = text::texts(items@);
        assert(views[i as int] == set.actions@[i as int]@);
        items.push(write_action(&set.actions[i], set.timeout_for(i)));
        assert(text::texts(items@) =~= before.push(want[i as int]));
        assert(want.take(i + 1) =~= want.take(i as int).push(want[i as int]));
        i = i + 1;
    }
    assert(want.take(i as int) =~= want);
    text::join(&items, ",")
}

fn write_strings(list: &Vec<String>) -> (r: String)
    ensures
        r@ == strings_of(text::texts(list@)),
{
    let ghost want = text::texts(list@).map_values(|s: Seq<char>| string_of(s));
    let mut items: Vec<String> = Vec::new();
    let mut i: usize = 0;
    assert(text::texts(items@) =~= want.take(0));
    while i < list.len()
        invariant
            i <= list@.len(),
            want == text::texts(list@).map_values(|s: Seq<char>| string_of(s)),
            text::texts(items@) == want.take(i as int),
        decreases list@.len() - i,
    {
        let ghost before = text::texts(items@);
        let mut s = "\"".to_string();
        s.append(json::esc(list[i].as_str()).as_str());
        s.append("\"");
        items.push(s);
        assert(text::texts(items@) =~= before.push(want[i as int]));
        assert(want.take(i + 1) =~= want.take(i as int).push(want[i as int]));
        i = i + 1;
    }
    assert(want.take(i as int) =~= want);
    text::join(&items, ",")
}

/// A line of a voxtype config that hands transcripts to this program.
pub open spec fn wires(line: Seq<char>) -> bool {
    let t = text::trimmed(line);
    text::occurs_at(t, "command"@, 0) && text::holds(t, "voxtype-review"@)
}

/// Whether a voxtype config hands transcripts to this program.
pub open spec fn wired_in(file: Seq<char>) -> bool {
    exists|i: int|
        0 <= i < text::line_list(file).len() && wires(#[trigger] text::line_list(file)[i])
}

/// Whether the voxtype config at `path` hands transcripts to this program, and
/// how that reads. `file` is its text, where it can be read.
pub fn voxtype_wiring(path: &str, file: Option<&str>) -> (r: (bool, String))
    ensures
        match file {
            None => !r.0 && r.1@ == "no Voxtype config at "@ + path@,
            Some(t) => {
                &&& r.0 == wired_in(t@)
                &&& r.0 ==> r.1@ == "wired in "@ + path@
                &&& !r.0 ==> r.1@ == "not wired in "@ + path@ + " — run ./install.sh --wire"@
            },
        },
{
    let t = match file {
        Some(t) => t,
        None => {
            let mut m = "no Voxtype config at ".to_string();
            m.append(path);
            return (false, m);
        },
    };
    let lines = text::lines(t);
    let ghost all = text::line_list(t@);
    let mut i: usize = 0;
    while i < lines.len()
        invariant
            i <= lines@.len(),
            all == text::line_list(t@),
            all == text::texts(lines@),
            file == Some(t),
            forall|j: int| 0 <= j < i ==> !wires(#[trigger] all[j]),
        decreases lines@.len() - i,
    {
        assert(all[i as int] == lines@[i as int]@);
        let line = text::trim(lines[i].as_str());
        if text::starts_with(line.as_str(), "command") && text::contains(
            line.as_str(),
            "voxtype-review",
        ) {
            assert(wires(text::line_list(t@)[i as int]));
            let mut m = "wired in ".to_string();
            m.append(path);
            return (true, m);
        }
        i = i + 1;
    }
    let mut m = "not wired in ".to_string();
    m.append(path);
    m.append(" — run ./install.sh --wire");
    (false, m)
}

/// What the page shows of this machine, beside the action set.
#[derive(Debug)]
pub struct Surroundings {
    /// Where the config lives, or nothing.
    pub path: String,
    /// Whether there is a file.
    pub present: bool,
    /// The program that serves the page.
    pub binary: String,
    /// Whether voxtype is wired to it, and how that reads.
    pub wired: bool,
    pub wire_msg: String,
    /// Whether these programs are there.
    pub xdotool: bool,
    pub ollama: bool,
}

/// The state of the action set in JSON.
pub open spec fn state_object(set: LoadedView, s: Surroundings) -> Seq<char> {
    "{\"path\":\""@ + json::escaped(s.path@) + "\",\"exists\":"@ + truth(s.present)
        + ",\"using_defaults\":"@ + truth(set.used_defaults) + ",\"actions\":["@ + action_objects(
        set,
    ) + "],\"warnings\":["@ + strings_of(set.warnings) + "],\"binary\":\""@ + json::escaped(
        s.binary@,
    ) + "\",\"wired\":"@ + truth(s.wired) + ",\"wire_msg\":\""@ + json::escaped(s.wire_msg@)
        + "\",\"xdotool\":"@ + truth(s.xdotool) + ",\"ollama\":"@ + truth(s.ollama) + "}"@
}

/// The state of the action set in JSON.
pub fn state_json(set: &Loaded, s: &Surroundings) -> (r: String)
    ensures
        r@ == state_object(set@, *s),
{
    let mut r = "{\"path\":\"".to_string();
    r.append(json::esc(s.path.as_str()).as_str());
    r.append("\",\"exists\":");
    push_bool(&mut r, s.present);
    r.append(",\"using_defaults\":");
    push_bool(&mut r, set.used_defaults);
    r.append(",\"actions\":[");
    r.append(write_actions(set).as_str());
    r.append("],\"warnings\":[");
    r.append(write_strings(&set.warnings).as_str());
    r.append("],\"binary\":\"");
    r.append(json::esc(s.binary.as_str()).as_str());
    r.append("\",\"wired\":");
    push_bool(&mut r, s.wired);
    r.append(",\"wire_msg\":\"");
    r.append(json::esc(s.wire_msg.as_str()).as_str());
    r.append("\",\"xdotool\":");
    push_bool(&mut r, s.xdotool);
    r.append(",\"ollama\":");
    push_bool(&mut r, s.ollama);
    r.append("}");
    r
}

/// The built-in actions in JSON, for an operator whose config predates a fix to
/// them. They fill the editor and are written only when saved.
pub fn defaults_json() -> (r: String)
    ensures
        r@ == "{\"actions\":["@ + action_objects(config::default_set()) + "]}"@,
{
    let mut r = "{\"actions\":[".to_string();
    r.append(write_actions(&config::defaults()).as_str());
    r.append("]}");
    r
}

// ---------------------------------------------------------------------------
// Saving the action set
// ---------------------------------------------------------------------------

/// The answer to a request that may fail.
#[derive(Debug)]
pub struct Response {
    pub status: &'static str,
    pub body: String,
}

/// The model of a [`Response`].
pub struct ResponseView {
    pub status: Seq<char>,
    pub body: Seq<char>,
}

impl View for Response {
    type V = ResponseView;

    open spec fn view(&self) -> ResponseView {
        ResponseView { status: self.status@, body: self.body@ }
    }
}

/// An answer that reports an error.
pub open spec fn refusal(status: Seq<char>, error: Seq<char>) -> ResponseView {
    ResponseView {
        status,
        body: "{\"ok\":false,\"error\":\""@ + json::escaped(error) + "\"}"@,
    }
}

fn refuse(status: &'static str, error: &str) -> (r: Response)
    ensures
        r@ == refusal(status@, error@),
{
    let mut body = "{\"ok\":false,\"error\":\"".to_string();
    body.append(json::esc(error).as_str());
    body.append("\"}");
    Response { status, body }
}

/// A warning for which a save is refused: the popup would not load all of the
/// file.
pub open spec fn is_fatal(warning: Seq<char>) -> bool {
    text::holds(warning, "not valid TOML"@) || text::holds(warning, "skipped"@)
}

/// The warnings for which a save is refused.
pub open spec fn fatal_warnings(warnings: Seq<Seq<char>>) -> Seq<Seq<char>>
    decreases warnings.len(),
{
    if warnings.len() == 0 {
        seq![]
    } else if is_fatal(warnings.last()) {
        fatal_warnings(warnings.drop_last()).push(warnings.last())
    } else {
        fatal_warnings(warnings.drop_last())
    }
}

/// The answer to a save that is refused for these warnings.
pub open spec fn refused(fatal: Seq<Seq<char>>) -> ResponseView {
    ResponseView {
        status: "400 Bad Request"@,
        body: "{\"ok\":false,\"error\":\"refused — the file on disk was not changed\",\"detail\":["@
            + strings_of(fatal) + "]}"@,
    }
}

/// A save that is allowed: what to write, and how many actions it holds.
#[derive(Debug)]
pub struct Draft {
    pub toml: String,
    pub count: usize,
}

fn list_fatal(warnings: &Vec<String>) -> (r: Vec<String>)
    ensures
        text::texts(r@) == fatal_warnings(text::texts(warnings@)),
{
    let ghost all = text::texts(warnings@);
    let mut r: Vec<String> = Vec::new();
    let mut i: usize = 0;
    assert(all.take(0).len() == 0);
    assert(text::texts(r@) =~= fatal_warnings(all.take(0)));
    while i < warnings.len()
        invariant
            i <= warnings@.len(),
            all == text::texts(warnings@),
            text::texts(r@) == fatal_warnings(all.take(i as int)),
        decreases warnings@.len() - i,
    {
        let w = warnings[i].as_str();
        proof {
            let next = all.take(i + 1);
            assert(next.drop_last() =~= all.take(i as int));
            assert(next.last() == w@);
        }
        if text::contains(w, "not valid TOML") || text::contains(w, "skipped") {
            let ghost before = text::texts(r@);
            r.push(warnings[i].clone());
            assert(text::texts(r@) =~= before.push(w@));
        }
        i = i + 1;
    }
    assert(all.take(all.len() as int) =~= all);
    r
}

/// Whether `toml` may be saved, given the action set it comes to.
pub fn check_draft(toml: String, set: &Loaded) -> (r: Result<Draft, Response>)
    ensures
        match r {
            Ok(d) => fatal_warnings(set@.warnings).len() == 0 && d.toml@ == toml@ && d.count
                == set@.actions.len(),
            Err(e) => fatal_warnings(set@.warnings).len() > 0 && e@ == refused(
                fatal_warnings(set@.warnings),
            ),
        },
{
    let fatal = list_fatal(&set.warnings);
    assert(text::texts(fatal@).len() == fatal@.len());
    if fatal.len() > 0 {
        let mut body =
            "{\"ok\":false,\"error\":\"refused — the file on disk was not changed\",\"detail\":[".to_string();
        body.append(write_strings(&fatal).as_str());
        body.append("]}");
        return Err(Response { status: "400 Bad Request", body });
    }
    assert(set@.actions.len() == set.actions@.len());
    Ok(Draft { toml, count: set.actions.len() })
}

/// The action set that a text comes to.
pub open spec fn loads_as(toml: Seq<char>) -> LoadedView {
    config::loaded(toml, toml_doc::toml_tree(toml), toml_doc::toml_keys(toml))
}

/// What may be written for a save, or how the save is answered instead.
///
/// The text goes through the loader of the popup, so that what the page accepts
/// and what the popup accepts cannot diverge.
pub fn save(body: &str) -> (r: Result<Draft, Response>)
    requires
        json::readable(body@, "toml"@),
    ensures
        match json::field_value(body@, "toml"@) {
            None => r matches Err(e) && e@ == (ResponseView {
                status: "400 Bad Request"@,
                body: "{\"ok\":false,\"error\":\"no toml field\"}"@,
            }),
            Some(toml) => {
                let fatal = fatal_warnings(loads_as(toml).warnings);
                match r {
                    Ok(d) => fatal.len() == 0 && d.toml@ == toml && d.count == loads_as(
                        toml,
                    ).actions.len(),
                    Err(e) => fatal.len() > 0 && e@ == refused(fatal),
                }
            },
        },
{
    match json::field(body, "toml") {
        None => Err(
            Response {
                status: "400 Bad Request",
                body: "{\"ok\":false,\"error\":\"no toml field\"}".to_string(),
            },
        ),
        Some(toml) => {
            let set = config::parse(toml.as_str());
            check_draft(toml, &set)
        },
    }
}

/// How writing a draft ended.
#[derive(Debug)]
pub enum Written {
    /// There is no place for a config.
    NoPath,
    /// The directory could not be made, or the file could not be written.
    Failed(String),
    /// It stands at this path.
    At(String),
}

/// How a save that was allowed is answered.
pub fn save_answer(count: usize, written: Written) -> (r: Response)
    ensures
        r@ == (match written {
            Written::NoPath => ResponseView {
                status: "500 Internal Server Error"@,
                body: "{\"ok\":false,\"error\":\"no config path\"}"@,
            },
            Written::Failed(e) => refusal("500 Internal Server Error"@, e@),
            Written::At(p) => ResponseView {
                status: "200 OK"@,
                body: "{\"ok\":true,\"count\":"@ + text::decimal(count as nat) + ",\"path\":\""@
                    + json::escaped(p@) + "\"}"@,
            },
        }),
{
    match written {
        Written::NoPath => Response {
            status: "500 Internal Server Error",
            body: "{\"ok\":false,\"error\":\"no config path\"}".to_string(),
        },
        Written::Failed(e) => refuse("500 Internal Server Error", e.as_str()),
        Written::At(p) => {
            let mut body = "{\"ok\":true,\"count\":".to_string();
            body.append(text::to_decimal(count as u128).as_str());
            body.append(",\"path\":\"");
            body.append(json::esc(p.as_str()).as_str());
            body.append("\"}");
            Response { status: "200 OK", body }
        },
    }
}

// ---------------------------------------------------------------------------
// Trying an action
// ---------------------------------------------------------------------------

/// The string under `key`, or nothing where there is none.
pub open spec fn field_or_empty(body: Seq<char>, key: Seq<char>) -> Seq<char> {
    match json::field_value(body, key) {
        Some(v) => v,
        None => ""@,
    }
}

/// The time that a trial is given, in milliseconds.
pub open spec fn trial_time(body: Seq<char>) -> u64 {
    match json::field_value(body, "timeout_ms"@) {
        Some(v) => match text::bounded(text::unsigned(v), u64::MAX as int) {
            Some(ms) => ms as u64,
            None => config::DEFAULT_TIMEOUT_MS,
        },
        None => config::DEFAULT_TIMEOUT_MS,
    }
}

/// What a trial came to, in JSON.
pub open spec fn trial_report(out: OutcomeView) -> Seq<char> {
    match out.failure {
        Some(f) => "{\"ok\":true,\"failed\":true,\"error\":\""@ + json::escaped(
            crate::action::failure_message(f),
        ) + "\",\"output\":\""@ + json::escaped(out.text) + "\"}"@,
        None => "{\"ok\":true,\"failed\":false,\"output\":\""@ + json::escaped(out.text) + "\"}"@,
    }
}

fn read_or_empty(body: &str, key: &str) -> (r: String)
    requires
        json::readable(body@, key@),
    ensures
        r@ == field_or_empty(body@, key@),
{
    match json::field(body, key) {
        Some(v) => v,
        None => "".to_string(),
    }
}

fn read_time(body: &str) -> (r: u64)
    requires
        json::readable(body@, "timeout_ms"@),
    ensures
        r == trial_time(body@),
{
    match json::field(body, "timeout_ms") {
        Some(v) => match text::parse_unsigned(v.as_str(), u64::MAX) {
            Some(ms) => ms,
            None => config::DEFAULT_TIMEOUT_MS,
        },
        None => config::DEFAULT_TIMEOUT_MS,
    }
}

/// What a trial came to, in JSON.
///
/// The diagnosis is reported rather than inferred: an action that returns its
/// input has not failed, and one that fails may print something else.
pub fn report_trial(out: &ActionOutcome) -> (r: String)
    ensures
        r@ == trial_report(out@),
{
    match &out.failure {
        Some(f) => {
            let mut r = "{\"ok\":true,\"failed\":true,\"error\":\"".to_string();
            r.append(json::esc(f.message().as_str()).as_str());
            r.append("\",\"output\":\"");
            r.append(json::esc(out.text.as_str()).as_str());
            r.append("\"}");
            r
        },
        None => {
            let mut r = "{\"ok\":true,\"failed\":false,\"output\":\"".to_string();
            r.append(json::esc(out.text.as_str()).as_str());
            r.append("\"}");
            r
        },
    }
}

/// Try a command on a text. `run` runs an action over a text, within a time in
/// milliseconds; it is called only where there is a command.
pub fn test_action<F: FnOnce(&Action, &str, u64) -> ActionOutcome>(body: &str, run: F) -> (r: String)
    requires
        json::readable(body@, "command"@),
        json::readable(body@, "text"@),
        json::readable(body@, "timeout_ms"@),
        forall|a: &Action, t: &str, ms: u64| run.requires((a, t, ms)),
    ensures
        ({
            let command = field_or_empty(body@, "command"@);
            if text::blank(command) {
                r@ == "{\"ok\":false,\"error\":\"no command\"}"@
            } else {
                exists|a: &Action, t: &str, out: ActionOutcome|
                    {
                        &&& a@ == (ActionView { label: "test"@, key: None, command })
                        &&& t@ == field_or_empty(body@, "text"@)
                        &&& #[trigger] run.ensures((a, t, trial_time(body@)), out)
                        &&& r@ == trial_report(out@)
                    }
            }
        }),
{
    let command = read_or_empty(body, "command");
    let text = read_or_empty(body, "text");
    let ms: u64 = read_time(body);
    if text::is_blank(command.as_str()) {
        return "{\"ok\":false,\"error\":\"no command\"}".to_string();
    }
    let action = Action { label: "test".to_string(), key: None, command };
    let out = run(&action, text.as_str(), ms);
    report_trial(&out)
}

// ---------------------------------------------------------------------------
// The settings of voxtype
// ---------------------------------------------------------------------------

/// A setting in JSON.
pub open spec fn setting_object(s: SettingView) -> Seq<char> {
    "{\"id\":\""@ + json::escaped(s.id) + "\",\"value\":\""@ + json::escaped(s.value)
        + "\",\"present\":"@ + truth(s.present) + ",\"help\":\""@ + json::escaped(s.help) + "\"}"@
}

/// The settings in JSON.
pub open spec fn settings_object(path: Seq<char>, list: Seq<SettingView>) -> Seq<char> {
    "{\"path\":\""@ + json::escaped(path) + "\",\"ok\":true,\"settings\":["@ + text::joined(
        list.map_values(|s: SettingView| setting_object(s)),
        ","@,
    ) + "]}"@
}

/// The settings in JSON, where they could not be read.
pub open spec fn no_settings_object(path: Seq<char>, error: Seq<char>) -> Seq<char> {
    "{\"path\":\""@ + json::escaped(path) + "\",\"ok\":false,\"error\":\""@ + json::escaped(error)
        + "\",\"settings\":[]}"@
}

fn write_setting(s: &Setting) -> (r: String)
    ensures
        r@ == setting_object(s@),
{
    let mut r = "{\"id\":\"".to_string();
    r.append(json::esc(s.id).as_str());
    r.append("\",\"value\":\"");
    r.append(json::esc(s.value.as_str()).as_str());
    r.append("\",\"present\":");
    push_bool(&mut r, s.present);
    r.append(",\"help\":\"");
    r.append(json::esc(s.help).as_str());
    r.append("\"}");
    r
}

/// The settings in JSON, or why they could not be read.
pub fn settings_json(path: &str, settings: &Result<Vec<Setting>, String>) -> (r: String)
    ensures
        r@ == (match *settings {
            Ok(list) => settings_object(path@, voxtype_config::setting_views(list@)),
            Err(e) => no_settings_object(path@, e@),
        }),
{
    let list = match settings {
        Ok(list) => list,
        Err(e) => {
            let mut r = "{\"path\":\"".to_string();
            r.append(json::esc(path).as_str());
            r.append("\",\"ok\":false,\"error\":\"");
            r.append(json::esc(e.as_str()).as_str());
            r.append("\",\"settings\":[]}");
            return r;
        },
    };
    let ghost views = voxtype_config::setting_views(list@);
    let ghost want = views.map_values(|s: SettingView| setting_object(s));
    let mut items: Vec<String> = Vec::new();
    let mut i: usize = 0;
    assert(text::texts(items@) =~= want.take(0));
    while i < list.len()
        invariant
            i <= list@.len(),
            views == voxtype_config::setting_views(list@),
            want == views.map_values(|s: SettingView| setting_object(s)),
            text::texts(items@) == want.take(i as int),
        decreases list@.len() - i,
    {
        let ghost before = text::texts(items@);
        assert(views[i as int] == list@[i as int]@);
        items.push(write_setting(&list[i]));
        assert(text::texts(items@) =~= before.push(want[i as int]));
        assert(want.take(i + 1) =~= want.take(i as int).push(want[i as int]));
        i = i + 1;
    }
    assert(want.take(i as int) =~= want);
    let mut r = "{\"path\":\"".to_string();
    r.append(json::esc(path).as_str());
    r.append("\",\"ok\":true,\"settings\":[");
    r.append(text::join(&items, ",").as_str());
    r.append("]}");
    r
}

/// The settings of the voxtype config at `path` in JSON. `file` is its text, or
/// why it could not be read.
pub fn voxtype_json(path: &str, file: Result<String, String>) -> (r: String)
    ensures
        r@ == (match file {
            Err(e) => no_settings_object(path@, e@),
            Ok(t) => match toml_doc::toml_value(t@) {
                Err(e) => no_settings_object(path@, text::first_line_or(e, "invalid TOML"@)),
                Ok(doc) => settings_object(path@, voxtype_config::settings_in(doc)),
            },
        }),
{
    let settings = match file {
        Ok(t) => voxtype_config::read(t.as_str()),
        Err(e) => Err(e),
    };
    settings_json(path, &settings)
}

/// How a save of a setting that ended like this is answered.
pub open spec fn setting_answer(saved: Result<Seq<char>, Seq<char>>) -> ResponseView {
    match saved {
        Ok(m) => ResponseView {
            status: "200 OK"@,
            body: "{\"ok\":true,\"message\":\""@ + json::escaped(m) + "\"}"@,
        },
        Err(e) => refusal("400 Bad Request"@, e),
    }
}

/// Save a setting. `save` puts a value under an id, and is called only where
/// both are given.
pub fn save_voxtype<F: FnOnce(&str, &str) -> Result<String, String>>(body: &str, save: F) -> (r:
    Response)
    requires
        json::readable(body@, "id"@),
        json::readable(body@, "value"@),
        forall|id: &str, value: &str| save.requires((id, value)),
    ensures
        match (json::field_value(body@, "id"@), json::field_value(body@, "value"@)) {
            (Some(i), Some(v)) => exists|id: &str, value: &str, saved: Result<String, String>|
                {
                    &&& id@ == i
                    &&& value@ == v
                    &&& #[trigger] save.ensures((id, value), saved)
                    &&& r@ == setting_answer(voxtype_config::result_text(saved))
                },
            _ => r@ == (ResponseView {
                status: "400 Bad Request"@,
                body: "{\"ok\":false,\"error\":\"need id and value\"}"@,
            }),
        },
{
    let id = json::field(body, "id");
    let value = json::field(body, "value");
    match (id, value) {
        (Some(i), Some(v)) => {
            match save(i.as_str(), v.as_str()) {
                Ok(m) => {
                    let mut b = "{\"ok\":true,\"message\":\"".to_string();
                    b.append(json::esc(m.as_str()).as_str());
                    b.append("\"}");
                    Response { status: "200 OK", body: b }
                },
                Err(e) => refuse("400 Bad Request", e.as_str()),
            }
        },
        _ => Response {
            status: "400 Bad Request",
            body: "{\"ok\":false,\"error\":\"need id and value\"}".to_string(),
        },
    }
}

// ---------------------------------------------------------------------------
// What an accepted save can be relied on for
// ---------------------------------------------------------------------------

proof fn lemma_fatal_warnings(warnings: Seq<Seq<char>>)
    requires
        fatal_warnings(warnings).len() == 0,
    ensures
        forall|i: int| 0 <= i < warnings.len() ==> !is_fatal(#[trigger] warnings[i]),
    decreases warnings.len(),
{
    if warnings.len() > 0 {
        let front = warnings.drop_last();
        lemma_fatal_warnings(front);
        assert forall|i: int| 0 <= i < warnings.len() implies !is_fatal(#[trigger] warnings[i]) by {
            if i < front.len() {
                assert(warnings[i] == front[i]);
            }
        }
    }
}

/// What stands in the tail of a text stands in the text.
proof fn lemma_tail_holds(front: Seq<char>, tail: Seq<char>, pat: Seq<char>, k: int)
    requires
        0 <= k,
        k + pat.len() <= tail.len(),
        tail.subrange(k, k + pat.len()) == pat,
    ensures
        text::holds(front + tail, pat),
{
    let s = front + tail;
    let i = front.len() + k;
    assert(s.subrange(i, i + pat.len()) =~= tail.subrange(k, k + pat.len()));
    assert(text::occurs_at(s, pat, i));
}

proof fn lemma_a_fitting_skip_is_fatal(
    e: config::RawActionView,
    position: int,
    actions: Seq<ActionView>,
)
    ensures
        config::fitting_verdict(e, position, actions) matches config::Verdict::Skip(w) ==> is_fatal(w),
{
    let name = config::entry_name(e, position);
    reveal_strlit("skipped");
    reveal_strlit(" — skipped");
    reveal_strlit(" has no command — skipped");
    reveal_strlit("\", must be 1-9 — skipped");
    let pat = "skipped"@;
    let none = " has no command — skipped"@;
    let reused = " — skipped"@;
    let bad = "\", must be 1-9 — skipped"@;
    assert(none.subrange(none.len() - 7, none.len() as int) =~= pat);
    assert(reused.subrange(reused.len() - 7, reused.len() as int) =~= pat);
    assert(bad.subrange(bad.len() - 7, bad.len() as int) =~= pat);
    lemma_tail_holds(name, none, pat, none.len() - 7);
    if let Some(k) = e.key {
        lemma_tail_holds(
            name + " reuses hotkey "@ + seq![k[0]],
            reused,
            pat,
            reused.len() - 7,
        );
        lemma_tail_holds(name + " has hotkey \""@ + k, bad, pat, bad.len() - 7);
    }
}

proof fn lemma_a_skip_is_fatal(
    e: Result<config::RawActionView, Seq<char>>,
    position: int,
    actions: Seq<ActionView>,
)
    ensures
        config::verdict(e, position, actions) matches config::Verdict::Skip(w) ==> is_fatal(w),
{
    match e {
        Ok(a) => lemma_a_fitting_skip_is_fatal(a, position, actions),
        Err(place) => {
            reveal_strlit("skipped");
            reveal_strlit(" — skipped");
            let tail = " — skipped"@;
            assert(tail.subrange(tail.len() - 7, tail.len() as int) =~= "skipped"@);
            lemma_tail_holds(
                "action "@ + text::decimal(position as nat) + " is malformed at "@ + place,
                tail,
                "skipped"@,
                tail.len() - 7,
            );
        },
    }
}

proof fn lemma_checked_warnings_are_fatal(
    entries: Seq<Result<config::RawActionView, Seq<char>>>,
    n: int,
    global: u64,
)
    ensures
        forall|i: int|
            0 <= i < config::checked(entries, n, global).warnings.len() ==> is_fatal(
                #[trigger] config::checked(entries, n, global).warnings[i],
            ),
    decreases n,
{
    if n > 0 {
        let before = config::checked(entries, n - 1, global);
        lemma_checked_warnings_are_fatal(entries, n - 1, global);
        lemma_a_skip_is_fatal(entries[n - 1], n, before.actions);
        let after = config::checked(entries, n, global);
        assert forall|i: int| 0 <= i < after.warnings.len() implies is_fatal(
            #[trigger] after.warnings[i],
        ) by {
            if i < before.warnings.len() {
                assert(after.warnings[i] == before.warnings[i]);
            }
        }
    }
}

proof fn lemma_not_toml_is_fatal(brief: Seq<char>)
    ensures
        is_fatal(config::not_toml(brief)),
{
    reveal_strlit("config is not valid TOML (");
    reveal_strlit("not valid TOML");
    let head = "config is not valid TOML ("@;
    let pat = "not valid TOML"@;
    let w = config::not_toml(brief);
    assert(w.subrange(10, 10 + pat.len() as int) =~= pat);
    assert(text::occurs_at(w, pat, 10));
}

/// What the page accepts, the popup loads: a text that is not refused is a
/// config, and every entry of it becomes an action.
pub proof fn law_what_the_page_accepts_the_popup_loads(
    toml: Seq<char>,
    tree: Result<toml_doc::Node, Seq<char>>,
    keys: Option<Seq<Seq<char>>>,
)
    requires
        fatal_warnings(config::loaded(toml, tree, keys).warnings).len() == 0,
    ensures
        tree is Ok,
        config::config_in(vstd::utf8::encode_utf8(toml), tree->Ok_0) is Ok,
        !config::loaded(toml, tree, keys).used_defaults,
        config::loaded(toml, tree, keys).actions.len() == config::config_in(
            vstd::utf8::encode_utf8(toml),
            tree->Ok_0,
        )->Ok_0.actions.len(),
{
    let set = config::loaded(toml, tree, keys);
    lemma_fatal_warnings(set.warnings);
    match tree {
        Err(e) => {
            let brief = text::first_line_or(e, "parse error"@);
            lemma_not_toml_is_fatal(brief);
            assert(set.warnings[0] == config::not_toml(brief));
        },
        Ok(root) => match config::config_in(vstd::utf8::encode_utf8(toml), root) {
            Err(at) => {
                let brief = toml_doc::error_heading(vstd::utf8::encode_utf8(toml), at as int);
                lemma_not_toml_is_fatal(brief);
                assert(set.warnings[0] == config::not_toml(brief));
            },
            Ok(raw) => {
                let global = match raw.timeout_ms {
                    Some(ms) => ms,
                    None => config::DEFAULT_TIMEOUT_MS,
                };
                let n = raw.actions.len() as int;
                let checked = config::checked(raw.actions, n, global);
                let unknown = config::unknown_keys(config::known_keys(keys));
                lemma_checked_warnings_are_fatal(raw.actions, n, global);
                config::law_every_entry_is_loaded_or_reported(raw.actions, n, global);
                config::law_checking_uses_no_defaults(raw.actions, n, global);
                if checked.warnings.len() > 0 {
                    assert(is_fatal(checked.warnings[0]));
                    assert(set.warnings[unknown.len() as int] == checked.warnings[0]);
                }
            },
        },
    }
}

/// The warnings for which a save is refused are the fatal ones, all of them and in
/// their order, and no others.
pub proof fn law_only_fatal_warnings_refuse(warnings: Seq<Seq<char>>)
    ensures
        fatal_warnings(warnings) == warnings.filter(
            |w: Seq<char>| text::holds(w, "not valid TOML"@) || text::holds(w, "skipped"@),
        ),
        fatal_warnings(warnings).len() == 0 <==> forall|i: int|
            0 <= i < warnings.len() ==> !is_fatal(#[trigger] warnings[i]),
    decreases warnings.len(),
{
    reveal(Seq::filter);
    if warnings.len() > 0 {
        law_only_fatal_warnings_refuse(warnings.drop_last());
        assert(warnings.last() == warnings[warnings.len() - 1]);
        if fatal_warnings(warnings).len() == 0 {
            lemma_fatal_warnings(warnings);
        }
        if forall|i: int| 0 <= i < warnings.len() ==> !is_fatal(#[trigger] warnings[i]) {
            assert forall|i: int| 0 <= i < warnings.drop_last().len() implies !is_fatal(
                #[trigger] warnings.drop_last()[i],
            ) by {
                assert(warnings.drop_last()[i] == warnings[i]);
            }
        }
    }
}

/// A set that loads without a warning is saved as the text it was read from, with
/// the number of its actions; one with a fatal warning is not, and the answer says
/// that nothing was changed.
pub proof fn law_a_clean_draft_is_saved(toml: String, set: &Loaded, r: Result<Draft, Response>)
    requires
        call_ensures(check_draft, (toml, set), r),
    ensures
        set.warnings@.len() == 0 ==> (r matches Ok(d) && d.toml@ == toml@ && d.count
            == set.actions@.len()),
        r matches Ok(d) ==> d.toml@ == toml@ && d.count == set.actions@.len(),
        (exists|i: int|
            0 <= i < set.warnings@.len() && (text::holds(
                (#[trigger] set.warnings@[i])@,
                "skipped"@,
            ) || text::holds(set.warnings@[i]@, "not valid TOML"@))) ==> (r matches Err(e)
            && e.status@ == "400 Bad Request"@ && text::holds(
            e.body@,
            "the file on disk was not changed"@,
        )),
{
    law_only_fatal_warnings_refuse(set@.warnings);
    assert(set@.warnings.len() == set.warnings@.len());
    if exists|i: int|
        0 <= i < set.warnings@.len() && (text::holds((#[trigger] set.warnings@[i])@, "skipped"@)
            || text::holds(set.warnings@[i]@, "not valid TOML"@)) {
        let i = choose|i: int|
            0 <= i < set.warnings@.len() && (text::holds(
                (#[trigger] set.warnings@[i])@,
                "skipped"@,
            ) || text::holds(set.warnings@[i]@, "not valid TOML"@));
        assert(set@.warnings[i] == set.warnings@[i]@);
        assert(is_fatal(set@.warnings[i]));
        let e = r->Err_0;
        reveal_strlit(
            "{\"ok\":false,\"error\":\"refused — the file on disk was not changed\",\"detail\":[",
        );
        reveal_strlit("the file on disk was not changed");
        let pat = "the file on disk was not changed"@;
        assert(e@.body.subrange(31, 31 + pat.len() as int) =~= pat);
        assert(text::occurs_at(e@.body, pat, 31));
    }
}

/// A config that is written down as it should be is accepted: what loads as written
/// holds nothing to refuse.
pub proof fn law_a_well_written_config_is_accepted(
    toml: Seq<char>,
    root: toml_doc::Node,
    keys: Option<Seq<Seq<char>>>,
    list: toml_doc::Node,
    actions: Seq<ActionView>,
    own: Seq<Option<u64>>,
    given: Option<u64>,
)
    requires
        root.value matches toml_doc::NodeValue::Table(entries) && {
            &&& config::first_key_fault(entries@, 0) is None
            &&& toml_doc::entry(entries@, "actions"@) == Some(list)
            &&& given matches Some(ms) ==> config::writes_ms(
                toml_doc::entry(entries@, "timeout_ms"@),
                ms,
            )
            &&& given is None ==> toml_doc::entry(entries@, "timeout_ms"@) is None
        },
        list.value matches toml_doc::NodeValue::Array(items) && items@.len() == actions.len()
            == own.len() && forall|i: int|
            0 <= i < items@.len() ==> config::writes_down(#[trigger] items@[i], actions[i], own[i]),
        actions.len() > 0,
        config::compatible(actions),
        keys matches Some(names) ==> forall|i: int|
            0 <= i < names.len() ==> #[trigger] names[i] == "actions"@ || names[i] == "timeout_ms"@,
    ensures
        fatal_warnings(config::loaded(toml, Ok(root), keys).warnings).len() == 0,
{
    config::law_a_config_loads_as_it_is_written(toml, root, keys, list, actions, own, given);
    law_only_fatal_warnings_refuse(config::loaded(toml, Ok(root), keys).warnings);
}

/// What a request asks for goes by its method and its path, whatever query stands
/// behind the path; each address answers to one method, and anything else is not
/// found.
pub proof fn law_a_request_goes_by_its_path(
    method: &str,
    path: &str,
    place: Seq<char>,
    query: Seq<char>,
    r: Route,
)
    requires
        call_ensures(route, (method, path), r),
        !place.contains('?'),
        path@ == place || path@ == place + seq!['?'] + query,
    ensures
        r == Route::Page <==> method@ == "GET"@ && place == "/"@,
        r == Route::State <==> method@ == "GET"@ && place == "/api/state"@,
        r == Route::Defaults <==> method@ == "GET"@ && place == "/api/defaults"@,
        r == Route::Voxtype <==> method@ == "GET"@ && place == "/api/voxtype"@,
        r == Route::Save <==> method@ == "POST"@ && place == "/api/save"@,
        r == Route::VoxtypeSave <==> method@ == "POST"@ && place == "/api/voxtype/save"@,
        r == Route::Test <==> method@ == "POST"@ && place == "/api/test"@,
        r == Route::NotFound || method@ == "GET"@ || method@ == "POST"@,
{
    let n = place.len() as int;
    assert forall|i: int| 0 <= i < n implies #[trigger] path@[i] != '?' by {
        assert(path@[i] == place[i]);
        assert(place.contains(place[i]));
    }
    text::lemma_index_or_len_is(path@, '?', n);
    assert(before_query(path@) =~= place);
    reveal_strlit("GET");
    reveal_strlit("POST");
    reveal_strlit("/");
    reveal_strlit("/api/state");
    reveal_strlit("/api/defaults");
    reveal_strlit("/api/voxtype");
    reveal_strlit("/api/save");
    reveal_strlit("/api/voxtype/save");
    reveal_strlit("/api/test");
    assert("GET"@.len() != "POST"@.len());
    assert("/"@.len() == 1 && "/api/state"@.len() == 10 && "/api/defaults"@.len() == 13
        && "/api/voxtype"@.len() == 12 && "/api/save"@.len() == 9 && "/api/voxtype/save"@.len() == 17
        && "/api/test"@.len() == 9);
    assert("/api/save"@[5] == 's' && "/api/test"@[5] == 't');
}

/// The page is HTML, what is not found is said in plain words, and everything else
/// is answered in JSON.
pub proof fn law_every_route_has_its_content_type(r: Route, head: (&'static str, &'static str))
    requires
        call_ensures(reply_head, (r,), head),
    ensures
        head.0@ == "404 Not Found"@ <==> r == Route::NotFound,
        head.0@ == "200 OK"@ <==> r != Route::NotFound,
        head.1@ == "text/html; charset=utf-8"@ <==> r == Route::Page,
        head.1@ == "text/plain"@ <==> r == Route::NotFound,
        head.1@ == "application/json"@ <==> r != Route::Page && r != Route::NotFound,
{
    reveal_strlit("200 OK");
    reveal_strlit("404 Not Found");
    reveal_strlit("text/html; charset=utf-8");
    reveal_strlit("text/plain");
    reveal_strlit("application/json");
    assert("200 OK"@.len() == 6 && "404 Not Found"@.len() == 13);
    assert("text/html; charset=utf-8"@.len() == 24 && "text/plain"@.len() == 10
        && "application/json"@.len() == 16);
}

/// A trial is given the time that the request names, in whole milliseconds, and two
/// minutes where it names none or none that is a number.
pub proof fn law_a_trial_is_given_the_time_it_names(body: Seq<char>, n: nat)
    ensures
        json::field_value(body, "timeout_ms"@) is None ==> trial_time(body) == 120_000,
        json::field_value(body, "timeout_ms"@) == Some(text::decimal(n)) && n <= u64::MAX
            ==> trial_time(body) == n,
        json::field_value(body, "timeout_ms"@) matches Some(v) ==> (text::unsigned(v) is None
            ==> trial_time(body) == 120_000),
{
    text::law_a_number_reads_back(n);
}

/// A trial runs what the request asks for: its command over its text, to the letter,
/// within its time, and reports what came of it. Without a command nothing runs.
pub proof fn law_a_trial_runs_what_is_asked_for<
    F: FnOnce(&Action, &str, u64) -> ActionOutcome,
>(body: &str, run: F, r: String, command: Seq<char>, typed: Seq<char>)
    requires
        call_ensures(test_action::<F>, (body, run), r),
        json::readable(body@, "command"@),
        json::readable(body@, "text"@),
        json::readable(body@, "timeout_ms"@),
        json::field_value(body@, "command"@) == Some(command),
        json::field_value(body@, "text"@) == Some(typed),
    ensures
        text::blank(command) ==> r@ == "{\"ok\":false,\"error\":\"no command\"}"@,
        !text::blank(command) ==> exists|a: &Action, t: &str, out: ActionOutcome|
            {
                &&& a.command@ == command
                &&& t@ == typed
                &&& #[trigger] run.ensures((a, t, trial_time(body@)), out)
                &&& out.failure is None ==> text::holds(r@, "\"failed\":false"@)
                &&& out.failure is Some ==> text::holds(r@, "\"failed\":true"@)
                &&& ("\"output\":\""@ + json::escaped(out.text@) + "\"}"@).is_suffix_of(r@)
            },
{
    if !text::blank(command) {
        let (a, t, out) = choose|a: &Action, t: &str, out: ActionOutcome|
            {
                &&& a@ == (ActionView { label: "test"@, key: None, command })
                &&& t@ == typed
                &&& #[trigger] run.ensures((a, t, trial_time(body@)), out)
                &&& r@ == trial_report(out@)
            };
        assert(a@.command == a.command@);
        law_a_trial_reports_what_came_of_it(out@);
        assert(out@.text == out.text@);
        assert(run.ensures((a, t, trial_time(body@)), out));
    }
}

/// The report of a trial says whether it failed, quotes why, and ends in the text
/// that came of it.
pub proof fn law_a_trial_reports_what_came_of_it(out: OutcomeView)
    ensures
        out.failure is None ==> text::holds(trial_report(out), "\"failed\":false"@),
        out.failure is Some ==> text::holds(trial_report(out), "\"failed\":true"@),
        out.failure matches Some(f) ==> json::field_value(trial_report(out), "error"@) == Some(
            crate::action::failure_message(f),
        ),
        out.failure is None ==> json::field_value(trial_report(out), "output"@) == Some(out.text),
        ("\"output\":\""@ + json::escaped(out.text) + "\"}"@).is_suffix_of(trial_report(out)),
{
    reveal_strlit("{\"ok\":true,\"failed\":true,\"error\":\"");
    reveal_strlit("{\"ok\":true,\"failed\":false,\"output\":\"");
    reveal_strlit("\",\"output\":\"");
    reveal_strlit("\"output\":\"");
    reveal_strlit("\"failed\":true");
    reveal_strlit("\"failed\":false");
    reveal_strlit("\"}");
    let r = trial_report(out);
    let end = "\"output\":\""@ + json::escaped(out.text) + "\"}"@;
    assert(end =~= r.subrange(r.len() - end.len(), r.len() as int));
    match out.failure {
        Some(f) => {
            assert(r.subrange(11, 24) =~= "\"failed\":true"@);
            assert(text::occurs_at(r, "\"failed\":true"@, 11));
            let m = crate::action::failure_message(f);
            let head = "{\"ok\":true,\"failed\":true,\"error\":\""@;
            let rest = ",\"output\":\""@ + json::escaped(out.text) + "\"}"@;
            reveal_strlit(",\"output\":\"");
            reveal_strlit("error");
            assert(head.len() == 34);
            assert(r =~= head + json::escaped(m) + seq!['"'] + rest);
            lemma_quoted_field(head, "error"@, m, rest, 25);
        },
        None => {
            assert(r.subrange(11, 25) =~= "\"failed\":false"@);
            assert(text::occurs_at(r, "\"failed\":false"@, 11));
            let head = "{\"ok\":true,\"failed\":false,\"output\":\""@;
            reveal_strlit("output");
            assert(head.len() == 36);
            assert(r =~= head + json::escaped(out.text) + seq!['"'] + seq!['}']);
            lemma_quoted_field(head, "output"@, out.text, seq!['}'], 26);
        },
    }
}

/// A field whose name is the first of its kind in an object that is written up to
/// the quote of its value reads back.
proof fn lemma_quoted_field(
    head: Seq<char>,
    key: Seq<char>,
    value: Seq<char>,
    rest: Seq<char>,
    at: int,
)
    requires
        key.len() >= 2,
        0 <= at <= head.len(),
        head =~= head.take(at) + (seq!['"'] + key + seq!['"']) + seq![':', '"'],
        forall|j: int|
            0 <= j < at ==> !(#[trigger] head[j] == '"' && head[j + 1] == key[0] && head[j + 2]
                == key[1]),
    ensures
        json::field_value(head + json::escaped(value) + seq!['"'] + rest, key) == Some(value),
{
    let front = head.take(at);
    let name = seq!['"'] + key + seq!['"'];
    let nothing: Seq<char> = seq![];
    let body = head + json::escaped(value) + seq!['"'] + rest;
    let same = front + name + nothing + seq![':'] + nothing + seq!['"'] + json::escaped(value)
        + seq!['"'] + rest;
    assert(head.len() == front.len() + name.len() + 2);
    assert(body =~= same);
    assert(front.len() == at);
    assert(body.subrange(at, at + name.len()) =~= name);
    assert forall|j: int| 0 <= j < at implies !text::occurs_at(body, name, j) by {
        if text::occurs_at(body, name, j) {
            let here = body.subrange(j, j + name.len());
            assert(here[0] == '"' && here[1] == key[0] && here[2] == key[1]);
            assert(body[j] == head[j] && body[j + 1] == head[j + 1] && body[j + 2] == head[j + 2]);
        }
    }
    json::law_a_field_is_read_where_it_stands(front, key, nothing, nothing, value, rest);
}

/// An answer that reports an error carries the error, to the letter.
pub proof fn law_a_refusal_carries_its_error(status: Seq<char>, error: Seq<char>)
    ensures
        refusal(status, error).status == status,
        json::field_value(refusal(status, error).body, "error"@) == Some(error),
        text::holds(refusal(status, error).body, "\"ok\":false"@),
{
    reveal_strlit("{\"ok\":false,\"error\":\"");
    reveal_strlit("\"ok\":false");
    reveal_strlit("\"}");
    reveal_strlit("error");
    let body = refusal(status, error).body;
    let head = "{\"ok\":false,\"error\":\""@;
    assert(head.len() == 21);
    assert(body =~= head + json::escaped(error) + seq!['"'] + seq!['}']);
    lemma_quoted_field(head, "error"@, error, seq!['}'], 12);
    assert(body.subrange(1, 11) =~= "\"ok\":false"@);
    assert(text::occurs_at(body, "\"ok\":false"@, 1));
}

/// A setting that was saved is answered with what is to be said of it, and one that
/// was not with its error.
pub proof fn law_a_saved_setting_is_answered(saved: Result<Seq<char>, Seq<char>>)
    ensures
        saved matches Ok(m) ==> setting_answer(saved).status == "200 OK"@ && json::field_value(
            setting_answer(saved).body,
            "message"@,
        ) == Some(m),
        saved matches Err(e) ==> setting_answer(saved).status == "400 Bad Request"@
            && json::field_value(setting_answer(saved).body, "error"@) == Some(e),
{
    match saved {
        Ok(m) => {
            reveal_strlit("{\"ok\":true,\"message\":\"");
            reveal_strlit("\"}");
            reveal_strlit("message");
            let head = "{\"ok\":true,\"message\":\""@;
            assert(head.len() == 22);
            assert(setting_answer(saved).body =~= head + json::escaped(m) + seq!['"'] + seq!['}']);
            lemma_quoted_field(head, "message"@, m, seq!['}'], 11);
        },
        Err(e) => law_a_refusal_carries_its_error("400 Bad Request"@, e),
    }
}

/// Saving a setting hands over the id and the value that the request names, to the
/// letter, and answers by what came of it; without either nothing is saved.
pub proof fn law_a_setting_is_saved_as_it_is_named<
    F: FnOnce(&str, &str) -> Result<String, String>,
>(body: &str, save: F, r: Response)
    requires
        call_ensures(save_voxtype::<F>, (body, save), r),
        json::readable(body@, "id"@),
        json::readable(body@, "value"@),
    ensures
        json::field_value(body@, "id"@) is None || json::field_value(body@, "value"@) is None
            ==> r.status@ == "400 Bad Request"@,
        json::field_value(body@, "id"@) is Some && json::field_value(body@, "value"@) is Some
            ==> exists|id: &str, value: &str, saved: Result<String, String>|
            {
                &&& Some(id@) == json::field_value(body@, "id"@)
                &&& Some(value@) == json::field_value(body@, "value"@)
                &&& #[trigger] save.ensures((id, value), saved)
                &&& saved matches Ok(m) ==> r.status@ == "200 OK"@ && json::field_value(
                    r.body@,
                    "message"@,
                ) == Some(m@)
                &&& saved matches Err(e) ==> r.status@ == "400 Bad Request"@ && json::field_value(
                    r.body@,
                    "error"@,
                ) == Some(e@)
            },
{
    assert(r@.status == r.status@ && r@.body == r.body@);
    if json::field_value(body@, "id"@) is Some && json::field_value(body@, "value"@) is Some {
        let (id, value, saved) = choose|id: &str, value: &str, saved: Result<String, String>|
            {
                &&& Some(id@) == json::field_value(body@, "id"@)
                &&& Some(value@) == json::field_value(body@, "value"@)
                &&& #[trigger] save.ensures((id, value), saved)
                &&& r@ == setting_answer(voxtype_config::result_text(saved))
            };
        law_a_saved_setting_is_answered(voxtype_config::result_text(saved));
        assert(save.ensures((id, value), saved));
    }
}

/// A save that was written is answered with where it stands and how many actions it
/// holds; one that could not be written with its error.
pub proof fn law_a_save_is_answered(count: usize, written: Written, r: Response)
    requires
        call_ensures(save_answer, (count, written), r),
    ensures
        r.status@ == "200 OK"@ <==> written is At,
        written matches Written::At(p) ==> text::holds(
            r.body@,
            "\"count\":"@ + text::decimal(count as nat) + ","@,
        ) && ("\"path\":\""@ + json::escaped(p@) + "\"}"@).is_suffix_of(r.body@),
        written matches Written::Failed(e) ==> json::field_value(r.body@, "error"@) == Some(e@),
        !(written is At) ==> r.status@ == "500 Internal Server Error"@,
{
    reveal_strlit("200 OK");
    reveal_strlit("500 Internal Server Error");
    assert("200 OK"@.len() != "500 Internal Server Error"@.len());
    assert(r@.status == r.status@ && r@.body == r.body@);
    match written {
        Written::At(p) => {
            reveal_strlit("{\"ok\":true,\"count\":");
            reveal_strlit("\"count\":");
            reveal_strlit(",\"path\":\"");
            reveal_strlit("\"path\":\"");
            reveal_strlit(",");
            let d = text::decimal(count as nat);
            let pat = "\"count\":"@ + d + ","@;
            assert(r@.body.subrange(11, 11 + pat.len() as int) =~= pat);
            assert(text::occurs_at(r@.body, pat, 11));
            let end = "\"path\":\""@ + json::escaped(p@) + "\"}"@;
            assert(end =~= r@.body.subrange(r@.body.len() - end.len(), r@.body.len() as int));
        },
        Written::Failed(e) => law_a_refusal_carries_its_error("500 Internal Server Error"@, e@),
        Written::NoPath => {},
    }
}

/// A text can be saved only where the request names one, and what is written is that
/// text to the letter.
pub proof fn law_a_save_writes_the_text_of_the_request(body: &str, r: Result<Draft, Response>)
    requires
        call_ensures(save, (body,), r),
        json::readable(body@, "toml"@),
    ensures
        json::field_value(body@, "toml"@) is None ==> r is Err,
        r matches Ok(d) ==> json::field_value(body@, "toml"@) == Some(d.toml@) && d.count
            == loads_as(d.toml@).actions.len(),
        json::field_value(body@, "toml"@) matches Some(toml) ==> (loads_as(toml).warnings.len() == 0
            ==> r is Ok),
        json::field_value(body@, "toml"@) matches Some(toml) ==> (r is Ok <==> forall|i: int|
            0 <= i < loads_as(toml).warnings.len() ==> !is_fatal(
                #[trigger] loads_as(toml).warnings[i],
            )),
{
    if let Some(toml) = json::field_value(body@, "toml"@) {
        law_only_fatal_warnings_refuse(loads_as(toml).warnings);
    }
}

/// Voxtype is wired to this program exactly where a line of its config sets a command
/// that names it. A comment does not count, whatever it says.
pub proof fn law_a_comment_wires_nothing(pad: Seq<char>, said: Seq<char>)
    requires
        forall|i: int| 0 <= i < pad.len() ==> text::is_space(#[trigger] pad[i]),
    ensures
        !wires(pad + seq!['#'] + said),
        text::holds(said, "voxtype-review"@) && (said.len() > 0 && !text::is_space(said.last()))
            ==> wires(pad + "command"@ + said),
{
    reveal_strlit("command");
    let line = pad + seq!['#'] + said;
    let p = pad.len() as int;
    assert forall|i: int| 0 <= i < p implies text::is_space(#[trigger] line[i]) by {
        assert(line[i] == pad[i]);
    }
    assert(line[p] == '#');
    text::lemma_trimmed_start_at(line, p);
    let m = text::lemma_trimmed_end_cut(line.skip(p));
    assert(line.skip(p)[0] == '#');
    assert(text::trimmed(line)[0] == '#');
    if text::occurs_at(text::trimmed(line), "command"@, 0) {
        assert(text::trimmed(line).subrange(0, 7)[0] == '#');
    }
    if text::holds(said, "voxtype-review"@) && said.len() > 0 && !text::is_space(said.last()) {
        let core = "command"@ + said;
        let nothing: Seq<char> = seq![];
        text::law_trimming_leaves_what_stands_between(pad, core, nothing);
        assert(pad + core + nothing =~= pad + "command"@ + said);
        assert(core.subrange(0, 7) =~= "command"@);
        let i = choose|i: int| text::occurs_at(said, "voxtype-review"@, i);
        let n = "voxtype-review"@.len() as int;
        assert(core.subrange(7 + i, 7 + i + n) =~= said.subrange(i, i + n));
        assert(text::occurs_at(core, "voxtype-review"@, 7 + i));
    }
}

/// A config is wired where one of its lines is, and how that reads names the file.
pub proof fn law_wiring_is_told(path: &str, file: Option<&str>, r: (bool, String))
    requires
        call_ensures(voxtype_wiring, (path, file), r),
    ensures
        file is None ==> !r.0,
        file matches Some(t) ==> (r.0 <==> exists|i: int|
            0 <= i < text::line_list(t@).len() && wires(#[trigger] text::line_list(t@)[i])),
        text::holds(r.1@, path@),
        r.0 ==> text::occurs_at(r.1@, "wired in "@, 0),
{
    let a = "no Voxtype config at "@;
    let b = "wired in "@;
    let c = "not wired in "@;
    let d = " — run ./install.sh --wire"@;
    match file {
        None => {
            assert(r.1@.subrange(a.len() as int, a.len() + path@.len() as int) =~= path@);
            assert(text::occurs_at(r.1@, path@, a.len() as int));
        },
        Some(t) => if r.0 {
            assert(r.1@.subrange(b.len() as int, b.len() + path@.len() as int) =~= path@);
            assert(text::occurs_at(r.1@, path@, b.len() as int));
            assert(r.1@.subrange(0, b.len() as int) =~= b);
        } else {
            assert(r.1@.subrange(c.len() as int, c.len() + path@.len() as int) =~= path@);
            assert(text::occurs_at(r.1@, path@, c.len() as int));
        },
    }
}

/// An action is shown by its key, its label, its command and its time, each as it
/// is.
pub proof fn law_an_action_is_shown_as_it_is(a: ActionView, ms: u64)
    ensures
        ({
            let o = action_object(a, ms);
            &&& a.key matches Some(c) ==> text::occurs_at(
                o,
                "{\"key\":\""@ + json::escaped(seq![c]) + "\","@,
                0,
            )
            &&& a.key is None ==> text::occurs_at(o, "{\"key\":\"\","@, 0)
            &&& text::holds(o, "\"label\":\""@ + json::escaped(a.label) + "\",\"command\""@)
            &&& text::holds(
                o,
                "\"command\":\""@ + json::escaped(a.command) + "\",\"timeout_ms\""@,
            )
            &&& ("\"timeout_ms\":"@ + text::decimal(ms as nat) + "}"@).is_suffix_of(o)
        }),
{
    reveal_strlit("{\"key\":\"");
    reveal_strlit("{\"key\":\"\",");
    reveal_strlit("\",");
    reveal_strlit("\",\"label\":\"");
    reveal_strlit("\"label\":\"");
    reveal_strlit("\",\"command\":\"");
    reveal_strlit("\",\"command\"");
    reveal_strlit("\"command\":\"");
    reveal_strlit("\",\"timeout_ms\":");
    reveal_strlit("\",\"timeout_ms\"");
    reveal_strlit("\"timeout_ms\":");
    let o = action_object(a, ms);
    let key = match a.key {
        Some(c) => json::escaped(seq![c]),
        None => json::escaped(seq![]),
    };
    let nothing: Seq<char> = seq![];
    assert(json::escaped(nothing).len() == 0);
    let head = "{\"key\":\""@ + key + "\","@;
    assert(o.subrange(0, head.len() as int) =~= head);
    if a.key is None {
        assert(head =~= "{\"key\":\"\","@);
    }
    let label = "\"label\":\""@ + json::escaped(a.label) + "\",\"command\""@;
    let i = head.len() as int;
    assert(o.subrange(i, i + label.len()) =~= label);
    assert(text::occurs_at(o, label, i));
    let command = "\"command\":\""@ + json::escaped(a.command) + "\",\"timeout_ms\""@;
    let j = i + 9 + json::escaped(a.label).len() + 2;
    assert(o.subrange(j, j + command.len()) =~= command);
    assert(text::occurs_at(o, command, j));
    let end = "\"timeout_ms\":"@ + text::decimal(ms as nat) + "}"@;
    assert(end =~= o.subrange(o.len() - end.len(), o.len() as int));
}

proof fn lemma_stands(front: Seq<char>, mid: Seq<char>, behind: Seq<char>)
    ensures
        text::holds(front + mid + behind, mid),
{
    let s = front + mid + behind;
    let n = front.len() as int;
    assert(s.subrange(n, n + mid.len()) =~= mid);
    assert(text::occurs_at(s, mid, n));
}

/// What was joined stands in the text, each part between what was joined before and
/// behind it.
proof fn lemma_joined_holds(parts: Seq<Seq<char>>, sep: Seq<char>, i: int)
    requires
        0 <= i < parts.len(),
    ensures
        text::holds(text::joined(parts, sep), parts[i]),
    decreases parts.len(),
{
    let whole = text::joined(parts, sep);
    let n = parts.len();
    let nothing: Seq<char> = seq![];
    if n == 1 {
        assert(nothing + parts[0] + nothing =~= whole);
        lemma_stands(nothing, parts[0], nothing);
    } else {
        let front = parts.drop_last();
        if i == n - 1 {
            assert((text::joined(front, sep) + sep) + parts.last() + nothing =~= whole);
            lemma_stands(text::joined(front, sep) + sep, parts.last(), nothing);
        } else {
            assert(front[i] == parts[i]);
            lemma_joined_holds(front, sep, i);
            let inner = text::joined(front, sep);
            let k = choose|k: int| text::occurs_at(inner, parts[i], k);
            let len = parts[i].len() as int;
            assert(whole.subrange(k, k + len) =~= inner.subrange(k, k + len));
            assert(text::occurs_at(whole, parts[i], k));
        }
    }
}

/// What is held by a part of a text is held by the text.
proof fn lemma_holds_within(front: Seq<char>, mid: Seq<char>, behind: Seq<char>, pat: Seq<char>)
    requires
        text::holds(mid, pat),
    ensures
        text::holds(front + mid + behind, pat),
{
    let s = front + mid + behind;
    let k = choose|k: int| text::occurs_at(mid, pat, k);
    let n = front.len() + k;
    assert(s.subrange(n, n + pat.len()) =~= mid.subrange(k, k + pat.len()));
    assert(text::occurs_at(s, pat, n));
}

/// The page shows the path of the config, every action with its time and every warning,
/// whether the built-in set is in use and what is known of this machine, each as it is.
pub proof fn law_the_state_shows_what_is_known(set: LoadedView, s: Surroundings, i: int)
    ensures
        ({
            let o = state_object(set, s);
            &&& json::field_value(o, "path"@) == Some(s.path@)
            &&& text::holds(o, "\"exists\":"@ + truth(s.present) + ","@)
            &&& text::holds(o, "\"using_defaults\":"@ + truth(set.used_defaults) + ","@)
            &&& text::holds(o, "\"binary\":\""@ + json::escaped(s.binary@) + "\","@)
            &&& text::holds(o, "\"wired\":"@ + truth(s.wired) + ","@)
            &&& text::holds(o, "\"wire_msg\":\""@ + json::escaped(s.wire_msg@) + "\","@)
            &&& text::holds(o, "\"xdotool\":"@ + truth(s.xdotool) + ","@)
            &&& ("\"ollama\":"@ + truth(s.ollama) + "}"@).is_suffix_of(o)
            &&& 0 <= i < set.actions.len() ==> text::holds(
                o,
                action_object(set.actions[i], config::time_of(set.timeouts, i)),
            )
            &&& 0 <= i < set.warnings.len() ==> text::holds(
                o,
                "\""@ + json::escaped(set.warnings[i]) + "\""@,
            )
        }),
        truth(true) == "true"@,
        truth(false) == "false"@,
{
    reveal_strlit("{\"path\":\"");
    reveal_strlit("\",\"exists\":");
    reveal_strlit("\"exists\":");
    reveal_strlit(",\"using_defaults\":");
    reveal_strlit("\"using_defaults\":");
    reveal_strlit(",\"actions\":[");
    reveal_strlit("],\"warnings\":[");
    reveal_strlit("],\"binary\":\"");
    reveal_strlit("\"binary\":\"");
    reveal_strlit("\",\"wired\":");
    reveal_strlit("\"wired\":");
    reveal_strlit(",\"wire_msg\":\"");
    reveal_strlit("\"wire_msg\":\"");
    reveal_strlit("\",\"xdotool\":");
    reveal_strlit("\"xdotool\":");
    reveal_strlit(",\"ollama\":");
    reveal_strlit("\"ollama\":");
    reveal_strlit("path");
    reveal_strlit(",");
    reveal_strlit("\",");
    let o = state_object(set, s);
    let l1 = "{\"path\":\""@;
    let l2 = "\",\"exists\":"@;
    let l3 = ",\"using_defaults\":"@;
    let l4 = ",\"actions\":["@;
    let l5 = "],\"warnings\":["@;
    let l6 = "],\"binary\":\""@;
    let l7 = "\",\"wired\":"@;
    let l8 = ",\"wire_msg\":\""@;
    let l9 = "\",\"xdotool\":"@;
    let l10 = ",\"ollama\":"@;
    let p1 = l1 + json::escaped(s.path@);
    let p2 = p1 + l2 + truth(s.present);
    let p3 = p2 + l3 + truth(set.used_defaults);
    let p4 = p3 + l4 + action_objects(set);
    let p5 = p4 + l5 + strings_of(set.warnings);
    let p6 = p5 + l6 + json::escaped(s.binary@);
    let p7 = p6 + l7 + truth(s.wired);
    let p8 = p7 + l8 + json::escaped(s.wire_msg@);
    let p9 = p8 + l9 + truth(s.xdotool);
    let p10 = p9 + l10 + truth(s.ollama);
    assert(o == p10 + "}"@);
    lemma_ahead(p10, "}"@, o);
    lemma_ahead(p9 + l10, truth(s.ollama), o);
    lemma_ahead(p9, l10, o);
    lemma_ahead(p8 + l9, truth(s.xdotool), o);
    lemma_ahead(p8, l9, o);
    lemma_ahead(p7 + l8, json::escaped(s.wire_msg@), o);
    lemma_ahead(p7, l8, o);
    lemma_ahead(p6 + l7, truth(s.wired), o);
    lemma_ahead(p6, l7, o);
    lemma_ahead(p5 + l6, json::escaped(s.binary@), o);
    lemma_ahead(p5, l6, o);
    lemma_ahead(p4 + l5, strings_of(set.warnings), o);
    lemma_ahead(p4, l5, o);
    lemma_ahead(p3 + l4, action_objects(set), o);
    lemma_ahead(p3, l4, o);
    lemma_ahead(p2 + l3, truth(set.used_defaults), o);
    lemma_ahead(p2, l3, o);
    lemma_ahead(p1 + l2, truth(s.present), o);
    lemma_member(p1, l2, truth(s.present), l3, o, "\"exists\":"@, ","@);
    lemma_member(p2, l3, truth(set.used_defaults), l4, o, "\"using_defaults\":"@, ","@);
    lemma_member(p5, l6, json::escaped(s.binary@), l7, o, "\"binary\":\""@, "\","@);
    lemma_member(p6, l7, truth(s.wired), l8, o, "\"wired\":"@, ","@);
    lemma_member(p7, l8, json::escaped(s.wire_msg@), l9, o, "\"wire_msg\":\""@, "\","@);
    lemma_member(p8, l9, truth(s.xdotool), l10, o, "\"xdotool\":"@, ","@);
    lemma_last_member(p9, l10, truth(s.ollama), "}"@, "\"ollama\":"@);
    lemma_path_first(s.path@, l2, o);
    if 0 <= i < set.actions.len() {
        let all = Seq::new(
            set.actions.len(),
            |i: int| action_object(set.actions[i], config::time_of(set.timeouts, i)),
        );
        lemma_joined_holds(all, ","@, i);
        lemma_held_ahead(p3 + l4, action_objects(set), o, all[i]);
    }
    if 0 <= i < set.warnings.len() {
        let all = set.warnings.map_values(|s: Seq<char>| string_of(s));
        lemma_joined_holds(all, ","@, i);
        lemma_held_ahead(p4 + l5, strings_of(set.warnings), o, all[i]);
    }
}

proof fn lemma_ahead(a: Seq<char>, b: Seq<char>, o: Seq<char>)
    requires
        a + b == o || (a + b).is_prefix_of(o),
    ensures
        a.is_prefix_of(o),
        (a + b).is_prefix_of(o),
{
    assert((a + b).is_prefix_of(a + b));
    assert(o.subrange(0, a.len() as int) =~= (a + b).subrange(0, a.len() as int));
    assert((a + b).subrange(0, a.len() as int) =~= a);
}

/// A member whose name ends a literal stands in an object with its value and with what
/// follows it.
proof fn lemma_member(
    p: Seq<char>,
    lit: Seq<char>,
    v: Seq<char>,
    next: Seq<char>,
    o: Seq<char>,
    key: Seq<char>,
    post: Seq<char>,
)
    requires
        (p + lit + v + next).is_prefix_of(o),
        lit.len() >= key.len(),
        lit.skip(lit.len() - key.len()) =~= key,
        next.len() >= post.len(),
        next.take(post.len() as int) =~= post,
    ensures
        text::holds(o, key + v + post),
{
    let whole = p + lit + v + next;
    let mid = key + v + post;
    let n = p.len() + lit.len() - key.len();
    assert forall|i: int| 0 <= i < mid.len() implies whole[n + i] == #[trigger] mid[i] by {
        if i < key.len() {
            assert(lit.skip(lit.len() - key.len())[i] == key[i]);
        } else if i >= key.len() + v.len() {
            assert(next.take(post.len() as int)[i - key.len() - v.len()] == post[i - key.len()
                - v.len()]);
        }
    }
    assert(o.subrange(n, n + mid.len()) =~= mid) by {
        assert forall|i: int| 0 <= i < mid.len() implies o[n + i] == #[trigger] mid[i] by {
            assert(o.subrange(0, whole.len() as int)[n + i] == whole[n + i]);
        }
    }
    assert(text::occurs_at(o, mid, n));
}

proof fn lemma_last_member(
    p: Seq<char>,
    lit: Seq<char>,
    v: Seq<char>,
    end: Seq<char>,
    key: Seq<char>,
)
    requires
        lit.len() >= key.len(),
        lit.skip(lit.len() - key.len()) =~= key,
    ensures
        (key + v + end).is_suffix_of(p + lit + v + end),
{
    let o = p + lit + v + end;
    let tail = key + v + end;
    assert forall|i: int| 0 <= i < tail.len() implies o[o.len() - tail.len() + i]
        == #[trigger] tail[i] by {
        if i < key.len() {
            assert(lit.skip(lit.len() - key.len())[i] == key[i]);
        }
    }
    assert(tail =~= o.subrange(o.len() - tail.len(), o.len() as int));
}

proof fn lemma_path_first(path: Seq<char>, next: Seq<char>, o: Seq<char>)
    requires
        ("{\"path\":\""@ + json::escaped(path) + next).is_prefix_of(o),
        next.len() > 0,
        next[0] == '"',
    ensures
        json::field_value(o, "path"@) == Some(path),
{
    reveal_strlit("{\"path\":\"");
    reveal_strlit("path");
    let head = "{\"path\":\""@;
    assert(head.len() == 9);
    let whole = head + json::escaped(path) + next;
    let n: int = head.len() as int + json::escaped(path).len();
    let rest = o.skip(n + 1);
    assert(o.take(n + 1) =~= head + json::escaped(path) + seq!['"']) by {
        assert forall|i: int| 0 <= i < n + 1 implies #[trigger] o[i] == (head + json::escaped(path)
            + seq!['"'])[i] by {
            assert(o.subrange(0, whole.len() as int)[i] == whole[i]);
        }
    }
    assert(o =~= o.take(n + 1) + rest);
    lemma_quoted_field(head, "path"@, path, rest, 1);
}

proof fn lemma_held_ahead(front: Seq<char>, mid: Seq<char>, o: Seq<char>, pat: Seq<char>)
    requires
        (front + mid).is_prefix_of(o),
        text::holds(mid, pat),
    ensures
        text::holds(o, pat),
{
    let whole = front + mid;
    let behind = o.skip(whole.len() as int);
    assert(o =~= whole + behind) by {
        assert(o.subrange(0, whole.len() as int) == whole);
        assert(o =~= o.subrange(0, whole.len() as int) + behind);
    }
    lemma_holds_within(front, mid, behind, pat);
}

proof fn lemma_prefix_holds(s: Seq<char>, front: Seq<char>, mid: Seq<char>)
    requires
        s.len() >= front.len() + mid.len(),
        forall|i: int|
            0 <= i < mid.len() ==> s[front.len() + i] == #[trigger] mid[i],
    ensures
        text::holds(s, mid),
{
    let n = front.len() as int;
    assert(s.subrange(n, n + mid.len()) =~= mid);
    assert(text::occurs_at(s, mid, n));
}

/// The built-in actions are served whole, each with its time.
pub proof fn law_the_defaults_are_served(r: String, i: int)
    requires
        call_ensures(defaults_json, (), r),
        0 <= i < config::default_actions().len(),
    ensures
        text::holds(r@, action_object(config::default_actions()[i], 120_000)),
{
    let set = config::default_set();
    let all = Seq::new(
        set.actions.len(),
        |i: int| action_object(set.actions[i], config::time_of(set.timeouts, i)),
    );
    lemma_joined_holds(all, ","@, i);
    assert(all[i] == action_object(set.actions[i], 120_000));
    lemma_holds_within("{\"actions\":["@, action_objects(set), "]}"@, all[i]);
}

/// A save that is refused lists every warning for which it is.
pub proof fn law_a_refused_save_lists_its_reasons(fatal: Seq<Seq<char>>, i: int)
    requires
        0 <= i < fatal.len(),
    ensures
        refused(fatal).status == "400 Bad Request"@,
        text::holds(refused(fatal).body, "\""@ + json::escaped(fatal[i]) + "\""@),
{
    let all = fatal.map_values(|s: Seq<char>| string_of(s));
    lemma_joined_holds(all, ","@, i);
    lemma_holds_within(
        "{\"ok\":false,\"error\":\"refused — the file on disk was not changed\",\"detail\":["@,
        strings_of(fatal),
        "]}"@,
        all[i],
    );
}

/// The settings are served with the path of their file, each by its id, its value,
/// whether it is there and what it is for; where they could not be read, the reason is
/// served instead.
pub proof fn law_the_settings_are_served(
    path: &str,
    settings: &Result<Vec<Setting>, String>,
    r: String,
    i: int,
)
    requires
        call_ensures(settings_json, (path, settings), r),
    ensures
        json::field_value(r@, "path"@) == Some(path@),
        *settings is Ok ==> text::holds(r@, "\"ok\":true"@),
        *settings is Err ==> text::holds(r@, "\"ok\":false"@),
        *settings matches Err(e) ==> text::holds(
            r@,
            "\"error\":\""@ + json::escaped(e@) + "\","@,
        ),
        *settings matches Ok(list) ==> (0 <= i < list@.len() ==> {
            let s = list@[i];
            text::holds(
                r@,
                "{\"id\":\""@ + json::escaped(s.id@) + "\",\"value\":\""@ + json::escaped(s.value@)
                    + "\",\"present\":"@ + truth(s.present) + ",\"help\":\""@ + json::escaped(
                    s.help@,
                ) + "\"}"@,
            )
        }),
{
    reveal_strlit("{\"path\":\"");
    reveal_strlit("path");
    reveal_strlit("\",\"ok\":true,\"settings\":[");
    reveal_strlit("\",\"ok\":false,\"error\":\"");
    reveal_strlit("\",\"settings\":[]}");
    reveal_strlit("\"ok\":true");
    reveal_strlit("\"ok\":false");
    reveal_strlit("\"error\":\"");
    reveal_strlit("\",");
    reveal_strlit("\",\"ok\":false,");
    let o = r@;
    let head = "{\"path\":\""@;
    assert(head.len() == 9);
    let p = head + json::escaped(path@);
    let rest = o.skip(p.len() as int + 1);
    assert(o =~= head + json::escaped(path@) + seq!['"'] + rest);
    lemma_quoted_field(head, "path"@, path@, rest, 1);
    match *settings {
        Ok(list) => {
            lemma_prefix_holds(o, p + "\","@, "\"ok\":true"@);
            if 0 <= i < list@.len() {
                let views = voxtype_config::setting_views(list@);
                let all = views.map_values(|s: SettingView| setting_object(s));
                assert(views[i] == list@[i]@);
                lemma_joined_holds(all, ","@, i);
                lemma_holds_within(
                    p + "\",\"ok\":true,\"settings\":["@,
                    text::joined(all, ","@),
                    "]}"@,
                    all[i],
                );
                assert(o =~= (p + "\",\"ok\":true,\"settings\":["@) + text::joined(all, ","@)
                    + "]}"@);
            }
        },
        Err(e) => {
            lemma_prefix_holds(o, p + "\","@, "\"ok\":false"@);
            lemma_prefix_holds(
                o,
                p + "\",\"ok\":false,"@,
                "\"error\":\""@ + json::escaped(e@) + "\","@,
            );
        },
    }
}

/// The page is served to this machine alone, at the port that was asked for, whichever it
/// is.
pub proof fn law_only_this_machine_is_served(port: u16, r: Address, at: String, local: bool)
    requires
        call_ensures(bind_addr, (port,), r),
        call_ensures(Address::ip, (&r,), at),
        call_ensures(Address::is_loopback, (&r,), local),
    ensures
        r.port == port,
        local,
        at@ == "127.0.0.1"@,
{
    reveal_strlit("127.0.0.1");
    reveal_strlit(".");
    reveal_with_fuel(text::decimal, 4);
    assert(text::decimal(127) =~= seq!['1', '2', '7']);
    assert(text::decimal(0) =~= seq!['0']);
    assert(text::decimal(1) =~= seq!['1']);
    assert(at@ =~= "127.0.0.1"@);
}

/// A port that cannot be listened on is named, with the reason.
pub proof fn law_a_port_that_is_taken_is_named(port: u16, error: &str, r: String)
    requires
        call_ensures(listen_failure, (port, error), r),
    ensures
        text::holds(r@, "127.0.0.1:"@ + text::decimal(port as nat) + ": "@ + error@),
{
    reveal_strlit("cannot listen on 127.0.0.1:");
    reveal_strlit("cannot listen on ");
    reveal_strlit("127.0.0.1:");
    lemma_prefix_holds(
        r@,
        "cannot listen on "@,
        "127.0.0.1:"@ + text::decimal(port as nat) + ": "@ + error@,
    );
}

/// What is printed names the address of the page and the file that it edits.
pub proof fn law_the_banner_names_the_page(port: u16, path: Option<String>, r: String)
    requires
        call_ensures(banner, (port, path), r),
    ensures
        text::holds(r@, "http://127.0.0.1:"@ + text::decimal(port as nat) + "/"@),
        path matches Some(p) ==> text::holds(r@, "editing: "@ + p@),
{
    reveal_strlit("voxtype-review config page\n  http://127.0.0.1:");
    reveal_strlit("http://127.0.0.1:");
    reveal_strlit("/");
    reveal_strlit("/\n\n  editing: ");
    reveal_strlit("editing: ");
    reveal_strlit("voxtype-review config page\n  ");
    let d = text::decimal(port as nat);
    lemma_prefix_holds(
        r@,
        "voxtype-review config page\n  "@,
        "http://127.0.0.1:"@ + d + "/"@,
    );
    if let Some(p) = path {
        reveal_strlit("/\n\n  ");
        lemma_prefix_holds(
            r@,
            "voxtype-review config page\n  http://127.0.0.1:"@ + d + "/\n\n  "@,
            "editing: "@ + p@,
        );
    }
}

/// A line that sets something else than a command wires nothing, nor does a command that
/// does not name this program.
pub proof fn law_only_a_command_that_names_it_wires(line: Seq<char>)
    ensures
        !text::holds(line, "voxtype-review"@) ==> !wires(line),
        !text::occurs_at(text::trimmed(line), "command"@, 0) ==> !wires(line),
{
    let t = text::trimmed(line);
    if text::holds(t, "voxtype-review"@) {
        text::lemma_trimmed(line);
        let (a, b) = choose|a: int, b: int|
            0 <= a <= b <= line.len() && t == #[trigger] line.subrange(a, b);
        let i = choose|i: int| text::occurs_at(t, "voxtype-review"@, i);
        let n = "voxtype-review"@.len() as int;
        assert(line.subrange(a + i, a + i + n) =~= t.subrange(i, i + n));
        assert(text::occurs_at(line, "voxtype-review"@, a + i));
    }
}

/// The settings of a file are served as reading it gives them, and a file that could not
/// be read is answered by its error.
pub proof fn law_what_is_read_is_what_is_served(
    path: &str,
    t: String,
    same: &str,
    e: String,
    read: Result<Vec<Setting>, String>,
    served: String,
    listed: String,
    refused_with: String,
    told: String,
)
    requires
        same@ == t@,
        call_ensures(voxtype_config::read, (same,), read),
        call_ensures(voxtype_json, (path, Ok::<String, String>(t)), served),
        call_ensures(settings_json, (path, &read), listed),
        call_ensures(voxtype_json, (path, Err::<String, String>(e)), refused_with),
        call_ensures(settings_json, (path, &Err::<Vec<Setting>, String>(e)), told),
    ensures
        served@ == listed@,
        refused_with@ == told@,
{
}

} // verus!
