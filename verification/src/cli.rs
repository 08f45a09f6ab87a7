//! The command line: what is asked for, and how it is answered.

use vstd::prelude::*;

use crate::action::{Action, ActionOutcome, ActionView, OutcomeView};
use crate::config::{Loaded, LoadedView};
use crate::config;
use crate::decision::Outcome;
use crate::text;
use crate::webui;

verus! {

// ---------------------------------------------------------------------------
// What is asked for
// ---------------------------------------------------------------------------

/// What the program is to do.
#[derive(Debug, PartialEq, Eq)]
pub enum Mode {
    Help,
    WriteDefaultConfig { force: bool },
    /// Serve the config page on a port, or say why that port is none.
    ConfigUi(Result<u16, String>),
    ListActions,
    Unpark,
    /// Review what arrives on stdin, with a window unless it is switched off.
    Review { no_gui: bool },
}

/// The port that is asked for: what follows the first `--port`, where something
/// does.
pub open spec fn port_asked(args: Seq<Seq<char>>) -> Option<Seq<char>> {
    let i = args.index_of_first("--port"@);
    match i {
        Some(k) => if k + 1 < args.len() {
            Some(args[k + 1])
        } else {
            None
        },
        None => None,
    }
}

/// `port` is what the arguments come to, as a port or as an error.
pub open spec fn is_port(args: Seq<Seq<char>>, port: Result<u16, String>) -> bool {
    match port_asked(args) {
        None => port == Ok::<u16, String>(webui::DEFAULT_PORT),
        Some(s) => match text::bounded(text::unsigned(s), u16::MAX as int) {
            Some(n) if n > 0 => port == Ok::<u16, String>(n as u16),
            _ => port matches Err(e) && e@ == "--port wants a number 1-65535, got \""@ + s
                + "\""@,
        },
    }
}

/// `mode` is what the arguments ask for. Where they ask for several things, the
/// first of them in this order is done.
pub open spec fn is_mode(args: Seq<Seq<char>>, mode: Mode) -> bool {
    if args.contains("--help"@) || args.contains("-h"@) {
        mode == Mode::Help
    } else if args.contains("--write-default-config"@) {
        mode == (Mode::WriteDefaultConfig { force: args.contains("--force"@) })
    } else if args.contains("--config-ui"@) {
        mode matches Mode::ConfigUi(port) && is_port(args, port)
    } else if args.contains("--list-actions"@) {
        mode == Mode::ListActions
    } else if args.contains("--unpark"@) {
        mode == Mode::Unpark
    } else {
        mode == (Mode::Review { no_gui: args.contains("--no-gui"@) })
    }
}

fn has(args: &Vec<String>, flag: &str) -> (r: bool)
    ensures
        r == text::texts(args@).contains(flag@),
{
    let ghost all = text::texts(args@);
    let mut i: usize = 0;
    while i < args.len()
        invariant
            i <= args@.len(),
            all == text::texts(args@),
            forall|j: int| 0 <= j < i ==> all[j] != flag@,
        decreases args@.len() - i,
    {
        assert(all[i as int] == args@[i as int]@);
        if text::same(args[i].as_str(), flag) {
            return true;
        }
        i = i + 1;
    }
    false
}

fn find_port(args: &Vec<String>) -> (r: Result<u16, String>)
    ensures
        is_port(text::texts(args@), r),
{
    let ghost all = text::texts(args@);
    let n: usize = args.len();
    let mut i: usize = 0;
    while i < n
        invariant
            i <= n,
            n == args@.len(),
            all == text::texts(args@),
            forall|j: int| 0 <= j < i ==> all[j] != "--port"@,
        decreases n - i,
    {
        assert(all[i as int] == args@[i as int]@);
        if text::same(args[i].as_str(), "--port") {
            proof {
                all.index_of_first_ensures("--port"@);
            }
            if i + 1 >= n {
                return Ok(webui::DEFAULT_PORT);
            }
            assert(all[i + 1] == args@[i + 1]@);
            let s = args[i + 1].as_str();
            return match text::parse_unsigned(s, u16::MAX as u64) {
                Some(p) if p > 0 => Ok(p as u16),
                _ => {
                    let mut e = "--port wants a number 1-65535, got \"".to_string();
                    e.append(s);
                    e.append("\"");
                    Err(e)
                },
            };
        }
        i = i + 1;
    }
    proof {
        all.index_of_first_ensures("--port"@);
    }
    Ok(webui::DEFAULT_PORT)
}

/// What the arguments ask for.
pub fn mode(args: &Vec<String>) -> (r: Mode)
    ensures
        is_mode(text::texts(args@), r),
{
    if has(args, "--help") || has(args, "-h") {
        Mode::Help
    } else if has(args, "--write-default-config") {
        Mode::WriteDefaultConfig { force: has(args, "--force") }
    } else if has(args, "--config-ui") {
        Mode::ConfigUi(find_port(args))
    } else if has(args, "--list-actions") {
        Mode::ListActions
    } else if has(args, "--unpark") {
        Mode::Unpark
    } else {
        Mode::Review { no_gui: has(args, "--no-gui") }
    }
}

// ---------------------------------------------------------------------------
// Listing the actions
// ---------------------------------------------------------------------------

/// Where the action set came from. `path` is where the config lives, and
/// `present` whether there is a file.
pub open spec fn source_of(path: Option<Seq<char>>, present: bool, used_defaults: bool) -> Seq<char> {
    match path {
        Some(p) => if present && !used_defaults {
            p
        } else if present {
            p + " (unusable — showing built-in defaults)"@
        } else {
            p + " (absent — showing built-in defaults)"@
        },
        None => "built-in defaults"@,
    }
}

/// The line of an action.
pub open spec fn listing_line(a: ActionView, ms: u64) -> Seq<char> {
    let key = match a.key {
        Some(c) => seq![c],
        None => seq!['-'],
    };
    key + "  "@ + a.label + "   ["@ + text::decimal(ms as nat) + "ms]  "@ + a.command
}

/// The lines that list an action set.
pub open spec fn listing_of(set: LoadedView, source: Seq<char>) -> Seq<Seq<char>> {
    let rows = Seq::new(
        set.actions.len(),
        |i: int| listing_line(set.actions[i], config::time_of(set.timeouts, i)),
    );
    if set.actions.len() == 0 {
        seq!["source: "@ + source, "(no actions)"@]
    } else {
        seq!["source: "@ + source] + rows
    }
}

fn write_listing_line(a: &Action, ms: u64) -> (r: String)
    ensures
        r@ == listing_line(a@, ms),
{
    let mut r = String::new();
    let c: char = match a.key {
        Some(c) => c,
        None => '-',
    };
    r.push(c);
    assert(r@ =~= seq![c]);
    r.append("  ");
    r.append(a.label.as_str());
    r.append("   [");
    r.append(text::to_decimal(ms as u128).as_str());
    r.append("ms]  ");
    r.append(a.command.as_str());
    r
}

/// Where the action set came from.
pub fn source(path: Option<String>, present: bool, used_defaults: bool) -> (r: String)
    ensures
        r@ == source_of(text::opt_text(path), present, used_defaults),
{
    match path {
        Some(p) => {
            let mut r = p;
            if present && !used_defaults {
            } else if present {
                r.append(" (unusable — showing built-in defaults)");
            } else {
                r.append(" (absent — showing built-in defaults)");
            }
            r
        },
        None => "built-in defaults".to_string(),
    }
}

/// The lines that list an action set.
pub fn listing(set: &Loaded, source: &str) -> (r: Vec<String>)
    ensures
        text::texts(r@) == listing_of(set@, source@),
{
    let ghost views = set@.actions;
    let ghost rows = Seq::new(
        views.len(),
        |i: int| listing_line(views[i], config::time_of(set@.timeouts, i)),
    );
    let ghost head = seq!["source: "@ + source@];
    let mut r: Vec<String> = Vec::new();
    let mut first = "source: ".to_string();
    first.append(source);
    r.push(first);
    assert(text::texts(r@) =~= head);
    if set.actions.len() == 0 {
        r.push("(no actions)".to_string());
        assert(text::texts(r@) =~= listing_of(set@, source@));
        return r;
    }
    let mut i: usize = 0;
    assert(text::texts(r@) =~= head + rows.take(0));
    while i < set.actions.len()
        invariant
            i <= set.actions@.len(),
            views == set@.actions,
            rows == Seq::new(
                views.len(),
                |i: int| listing_line(views[i], config::time_of(set@.timeouts, i)),
            ),
            text::texts(r@) == head + rows.take(i as int),
        decreases set.actions@.len() - i,
    {
        let ghost before = text::texts(r@);
        assert(views[i as int] == set.actions@[i as int]@);
        r.push(write_listing_line(&set.actions[i], set.timeout_for(i)));
        assert(text::texts(r@) =~= before.push(rows[i as int]));
        assert(rows.take(i + 1) =~= rows.take(i as int).push(rows[i as int]));
        assert(before.push(rows[i as int]) =~= head + rows.take(i + 1));
        i = i + 1;
    }
    assert(rows.take(i as int) =~= rows);
    r
}

// ---------------------------------------------------------------------------
// Reviewing
// ---------------------------------------------------------------------------

/// How long the focus is held once the text is out, in milliseconds.
pub const HOLD_MS: u64 = 700;

/// Whether the input is passed on without a window: where the window is switched
/// off, and where there is nothing to review.
pub fn passes_through(input: &str, no_gui: bool) -> (r: bool)
    ensures
        r == (no_gui || text::blank(input@)),
{
    no_gui || text::is_blank(input)
}

/// What a popup that did not come to its end decided. A window that fails to
/// open, or dies, must not lose the dictation.
pub fn fallback_outcome(input: &str) -> (r: Outcome)
    ensures
        r matches Outcome::Accept(t) && t@ == input@,
{
    Outcome::Accept(input.to_string())
}

/// The time that a decision is given, in milliseconds.
pub fn timeout_of(outcome: &Outcome, set: &Loaded) -> (r: u64)
    ensures
        r == (match *outcome {
            Outcome::Apply(i, _) => config::time_of(set@.timeouts, i as int),
            _ => config::DEFAULT_TIMEOUT_MS,
        }),
{
    match outcome {
        Outcome::Apply(i, _) => set.timeout_for(*i),
        _ => config::DEFAULT_TIMEOUT_MS,
    }
}

/// Run the action at `index` over a payload. `run` runs an action over a text,
/// within a time in milliseconds. An action that is not there leaves the payload
/// as it is.
pub fn execute<F: FnOnce(&Action, &str, u64) -> ActionOutcome>(
    set: &Loaded,
    index: usize,
    payload: &str,
    run: F,
) -> (r: ActionOutcome)
    requires
        forall|a: &Action, t: &str, ms: u64| run.requires((a, t, ms)),
    ensures
        if index < set.actions@.len() {
            run.ensures(
                (&set.actions@[index as int], payload, config::time_of(set@.timeouts, index as int)),
                r,
            )
        } else {
            r@ == (OutcomeView { text: payload@, failure: None })
        },
{
    if index < set.actions.len() {
        run(&set.actions[index], payload, set.timeout_for(index))
    } else {
        ActionOutcome::ok(payload.to_string())
    }
}

/// How a message to the operator reads.
pub fn diagnostic(message: &str) -> (r: String)
    ensures
        r@ == "voxtype-review: "@ + message@,
{
    let mut r = "voxtype-review: ".to_string();
    r.append(message);
    r
}

/// What `--help` prints.
pub const HELP: &'static str = "voxtype-review — edit-before-insert popup for Voxtype

USAGE:
    voxtype-review [OPTIONS]

    Reads a transcript on stdin, opens a window to review it, prints the
    result on stdout. Designed for Voxtype's [output.post_process] hook.

OPTIONS:
    --no-gui                 Pass stdin straight through. For testing without
                             a display.
    --list-actions           Print the action set that would be loaded, and
                             where it came from. Opens no window.
    --config-ui              Serve a config page on 127.0.0.1 for editing the
                             action set in a browser. Localhost only.
    --port N                 Port for --config-ui (default 8765).
    --write-default-config   Write a commented starter config.
    --force                  Allow --write-default-config to overwrite.
    -h, --help               This message.

KEYS:
    Enter          accept the transcript as it stands
    1-9            run that action over the text
    Up/Down        move the highlight; Space runs the highlighted action
    e / F2         click into the text box to edit by hand
    Ctrl+Enter     accept from anywhere
    Esc            cancel — emits the ORIGINAL transcript, never nothing

CONFIG:
    ~/.config/voxtype-review/config.toml   (override: $VOXTYPE_REVIEW_CONFIG)

    A missing or malformed config falls back to built-in defaults and warns on
    stderr; a single bad entry is skipped and the rest still load. A transcript
    is never lost because of a config error.

VOXTYPE:
    [output.post_process]
    command = \"voxtype-review\"
    timeout_ms = 600000";

// ---------------------------------------------------------------------------
// What the command line can be relied on for
// ---------------------------------------------------------------------------

/// A port that is asked for is the port that is used: behind the first `--port`,
/// every number from 1 to 65535 is taken as it is, wherever the flag stands; zero
/// and whatever is no such number is refused in its own words; and without the flag
/// the page has its usual port.
pub proof fn law_the_port_that_is_asked_for_is_used(
    before: Seq<Seq<char>>,
    asked: Seq<char>,
    behind: Seq<Seq<char>>,
    n: nat,
    port: Result<u16, String>,
)
    requires
        !before.contains("--port"@),
    ensures
        is_port(before + seq!["--port"@, asked] + behind, port) && asked == text::decimal(n) && 1
            <= n <= 65535 ==> port == Ok::<u16, String>(n as u16),
        is_port(before + seq!["--port"@, asked] + behind, port) && asked == text::decimal(n) && !(1
            <= n <= 65535) ==> port is Err,
        is_port(before + seq!["--port"@, asked] + behind, port) && (exists|i: int|
            0 <= i < asked.len() && !('0' <= #[trigger] asked[i] <= '9') && asked[i] != '+')
            ==> port is Err,
        is_port(before + seq!["--port"@, asked] + behind, port) ==> (port matches Err(e)
            ==> text::holds(e@, asked)),
        is_port(before, port) ==> port == Ok::<u16, String>(8765),
{
    let args = before + seq!["--port"@, asked] + behind;
    let k = before.len() as int;
    assert(args[k] == "--port"@);
    assert(args[k + 1] == asked);
    args.index_of_first_ensures("--port"@);
    before.index_of_first_ensures("--port"@);
    let i = args.index_of_first("--port"@)->0;
    if i < k {
        assert(args[i] == before[i]);
        assert(before.contains(before[i]));
    }
    assert(port_asked(args) == Some(asked));
    text::law_a_number_reads_back(n);
    if exists|i: int| 0 <= i < asked.len() && !('0' <= #[trigger] asked[i] <= '9') && asked[i] != '+' {
        lemma_no_number(asked);
    }
    if is_port(args, port) {
        if let Err(e) = port {
            let m = "--port wants a number 1-65535, got \""@.len() as int;
            assert(e@.subrange(m, m + asked.len()) =~= asked);
            assert(text::occurs_at(e@, asked, m));
        }
    }
}

proof fn lemma_no_number(s: Seq<char>)
    requires
        exists|i: int| 0 <= i < s.len() && !('0' <= #[trigger] s[i] <= '9') && s[i] != '+',
    ensures
        text::unsigned(s) is None,
{
    let i = choose|i: int| 0 <= i < s.len() && !('0' <= #[trigger] s[i] <= '9') && s[i] != '+';
    assert(text::digit_value(s[i]) >= 10);
    if s[0] == '+' {
        let t = s.drop_first();
        text::law_only_digits_spell_a_number(t, 10);
        assert(t[i - 1] == s[i]);
    } else {
        text::law_only_digits_spell_a_number(s, 10);
    }
}

/// What is done is what is asked for: each flag asks for one thing, help before all
/// others, and without any of them a transcript is reviewed, with a window unless
/// that is switched off.
pub proof fn law_each_flag_asks_for_one_thing(args: &Vec<String>, r: Mode)
    requires
        call_ensures(mode, (args,), r),
    ensures
        ({
            let all = text::texts(args@);
            let help = all.contains("--help"@) || all.contains("-h"@);
            let write = all.contains("--write-default-config"@);
            let page = all.contains("--config-ui"@);
            let list = all.contains("--list-actions"@);
            let unpark = all.contains("--unpark"@);
            &&& r is Help <==> help
            &&& r is WriteDefaultConfig <==> !help && write
            &&& r is ConfigUi <==> !help && !write && page
            &&& r is ListActions <==> !help && !write && !page && list
            &&& r is Unpark <==> !help && !write && !page && !list && unpark
            &&& r is Review <==> !help && !write && !page && !list && !unpark
            &&& r matches Mode::WriteDefaultConfig { force } ==> (force <==> all.contains(
                "--force"@,
            ))
            &&& r matches Mode::Review { no_gui } ==> (no_gui <==> all.contains("--no-gui"@))
            &&& r matches Mode::ConfigUi(port) ==> is_port(all, port)
        }),
{
}

/// Every action is listed, in its order and on a line of its own, by its key, its
/// label, the time it is given and its command; the first line tells the source.
pub proof fn law_every_action_is_listed(set: LoadedView, source: Seq<char>, i: int)
    requires
        0 <= i < set.actions.len(),
    ensures
        ({
            let lines = listing_of(set, source);
            let a = set.actions[i];
            let line = lines[i + 1];
            &&& lines.len() == set.actions.len() + 1
            &&& source.is_suffix_of(lines[0])
            &&& line[0] == match a.key {
                Some(c) => c,
                None => '-',
            }
            &&& text::holds(line, "  "@ + a.label + "   ["@)
            &&& text::holds(
                line,
                "["@ + text::decimal(config::time_of(set.timeouts, i) as nat) + "ms]"@,
            )
            &&& a.command.is_suffix_of(line)
        }),
{
    reveal_strlit("   [");
    reveal_strlit("[");
    reveal_strlit("ms]  ");
    reveal_strlit("ms]");
    reveal_strlit("  ");
    let lines = listing_of(set, source);
    let a = set.actions[i];
    let ms = config::time_of(set.timeouts, i);
    let line = listing_line(a, ms);
    assert(lines[i + 1] == line);
    let first = "source: "@ + source;
    assert(lines[0] == first);
    assert(source =~= first.subrange(first.len() - source.len(), first.len() as int));
    let p = "  "@ + a.label + "   ["@;
    assert(line.subrange(1, 1 + p.len() as int) =~= p);
    assert(text::occurs_at(line, p, 1));
    let q = "["@ + text::decimal(ms as nat) + "ms]"@;
    let n = 1 + 2 + a.label.len() as int + 3;
    assert(line.subrange(n, n + q.len()) =~= q);
    assert(text::occurs_at(line, q, n));
    assert(a.command =~= line.subrange(line.len() - a.command.len(), line.len() as int));
}

/// A set without actions is listed as such, and a set is attributed to the file only
/// where it came from it: a file that is not there or not usable is named, and said
/// not to be the source.
pub proof fn law_the_source_is_told(
    set: LoadedView,
    source: Seq<char>,
    path: Seq<char>,
    present: bool,
    used_defaults: bool,
)
    ensures
        set.actions.len() == 0 ==> listing_of(set, source).len() == 2,
        source_of(Some(path), present, used_defaults) == path <==> present && !used_defaults,
        text::occurs_at(source_of(Some(path), present, used_defaults), path, 0),
        present && used_defaults ==> text::holds(
            source_of(Some(path), present, used_defaults),
            "unusable"@,
        ),
        !present ==> text::holds(source_of(Some(path), present, used_defaults), "absent"@),
        source_of(None, present, used_defaults) == "built-in defaults"@,
{
    reveal_strlit(" (unusable — showing built-in defaults)");
    reveal_strlit(" (absent — showing built-in defaults)");
    reveal_strlit("unusable");
    reveal_strlit("absent");
    let s = source_of(Some(path), present, used_defaults);
    let n = path.len() as int;
    assert(s.subrange(0, n) =~= path);
    if present && used_defaults {
        assert(s.subrange(n + 2, n + 10) =~= "unusable"@);
        assert(text::occurs_at(s, "unusable"@, n + 2));
        assert(s.len() > n);
    }
    if !present {
        assert(s.subrange(n + 2, n + 8) =~= "absent"@);
        assert(text::occurs_at(s, "absent"@, n + 2));
        assert(s.len() > n);
    }
}

/// An action that is run from the popup is the one at its place in the set, over the
/// payload as it is and within its own time; what it comes to is what comes back.
/// One that is not there leaves the payload as it is.
pub proof fn law_an_action_runs_within_its_own_time<
    F: FnOnce(&Action, &str, u64) -> ActionOutcome,
>(set: &Loaded, index: usize, payload: &str, run: F, r: ActionOutcome)
    requires
        set.timeouts@.len() == set.actions@.len(),
        call_ensures(execute::<F>, (set, index, payload, run), r),
    ensures
        index < set.actions@.len() ==> run.ensures(
            (&set.actions@[index as int], payload, set.timeouts@[index as int]),
            r,
        ),
        index >= set.actions@.len() ==> r.text@ == payload@ && r.failure is None,
{
    if index >= set.actions@.len() {
        assert(r@.text == r.text@);
    }
}

/// A decision to run an action is given the time of that action.
pub proof fn law_a_decision_has_the_time_of_its_action(outcome: &Outcome, set: &Loaded, r: u64)
    requires
        call_ensures(timeout_of, (outcome, set), r),
    ensures
        *outcome matches Outcome::Apply(i, _) ==> (i < set.timeouts@.len() ==> r
            == set.timeouts@[i as int]),
        *outcome matches Outcome::Apply(i, _) ==> (i >= set.timeouts@.len() ==> r == 120_000),
{
}

/// A transcript is passed on unseen only where the window is switched off or there
/// is nothing to see; and a popup that failed accepts the transcript as it came.
pub proof fn law_a_transcript_is_reviewed(
    input: &str,
    no_gui: bool,
    unseen: bool,
    outcome: Outcome,
)
    requires
        call_ensures(passes_through, (input, no_gui), unseen),
        call_ensures(fallback_outcome, (input,), outcome),
    ensures
        !unseen <==> !no_gui && exists|i: int|
            0 <= i < input@.len() && !text::is_space(#[trigger] input@[i]),
        outcome matches Outcome::Accept(t) && t@ == input@,
{
    text::lemma_blank(input@);
}

/// A port may be written with a plus sign; nothing at all is no port; and a flag with
/// nothing behind it asks for none.
pub proof fn law_how_a_port_may_be_asked_for(
    before: Seq<Seq<char>>,
    behind: Seq<Seq<char>>,
    n: nat,
    port: Result<u16, String>,
)
    requires
        !before.contains("--port"@),
        1 <= n <= 65535,
    ensures
        is_port(before + seq!["--port"@, seq!['+'] + text::decimal(n)] + behind, port) ==> port
            == Ok::<u16, String>(n as u16),
        is_port(before + seq!["--port"@, Seq::<char>::empty()] + behind, port) ==> port is Err,
        is_port(before.push("--port"@), port) ==> port == Ok::<u16, String>(8765),
{
    text::law_a_number_reads_back(n);
    lemma_port_asked(before, seq!['+'] + text::decimal(n), behind);
    lemma_port_asked(before, Seq::<char>::empty(), behind);
    let last = before.push("--port"@);
    let k = before.len() as int;
    assert(last[k] == "--port"@);
    last.index_of_first_ensures("--port"@);
    let i = last.index_of_first("--port"@)->0;
    if i < k {
        assert(last[i] == before[i]);
        assert(before.contains(before[i]));
    }
}

proof fn lemma_port_asked(before: Seq<Seq<char>>, asked: Seq<char>, behind: Seq<Seq<char>>)
    requires
        !before.contains("--port"@),
    ensures
        port_asked(before + seq!["--port"@, asked] + behind) == Some(asked),
{
    let args = before + seq!["--port"@, asked] + behind;
    let k = before.len() as int;
    assert(args[k] == "--port"@);
    assert(args[k + 1] == asked);
    args.index_of_first_ensures("--port"@);
    let i = args.index_of_first("--port"@)->0;
    if i < k {
        assert(args[i] == before[i]);
        assert(before.contains(before[i]));
    }
}

/// A message to the operator is the message, behind the name of the program.
pub proof fn law_a_message_names_the_program(message: &str, r: String)
    requires
        call_ensures(diagnostic, (message,), r),
    ensures
        message@.is_suffix_of(r@),
        text::occurs_at(r@, "voxtype-review"@, 0),
{
    reveal_strlit("voxtype-review: ");
    reveal_strlit("voxtype-review");
    assert(message@ =~= r@.subrange(r@.len() - message@.len(), r@.len() as int));
    assert(r@.subrange(0, 14) =~= "voxtype-review"@);
}

} // verus!
