//! Actions: what the operator can apply to a transcript, and what a run of one
//! can come to.

use vstd::prelude::*;

use crate::text;

verus! {

// ---------------------------------------------------------------------------
// Types and their models
// ---------------------------------------------------------------------------

/// One predefined transformation the operator can apply to the transcript: a
/// label, a digit, and a shell command the text is piped through.
#[derive(Debug, PartialEq, Eq)]
pub struct Action {
    /// Shown in the popup.
    pub label: String,
    /// Hotkey digit, 1-9. `None` means selectable by arrows only.
    pub key: Option<char>,
    /// Shell command; the text arrives on stdin and the result is read from stdout.
    pub command: String,
}

/// The model of an [`Action`].
pub struct ActionView {
    pub label: Seq<char>,
    pub key: Option<char>,
    pub command: Seq<char>,
}

impl View for Action {
    type V = ActionView;

    open spec fn view(&self) -> ActionView {
        ActionView { label: self.label@, key: self.key, command: self.command@ }
    }
}

impl Clone for Action {
    fn clone(&self) -> (r: Self)
        ensures
            r == *self,
    {
        Action { label: self.label.clone(), key: self.key, command: self.command.clone() }
    }
}

/// The models of a list of actions.
pub open spec fn action_views(list: Seq<Action>) -> Seq<ActionView> {
    list.map_values(|a: Action| a@)
}

/// Why an action produced no usable result.
#[derive(Debug, PartialEq, Eq)]
pub enum ActionFailure {
    /// The operating system would not run the command, or would not let it be
    /// watched.
    Spawn(String),
    /// It ran and exited non-zero. `stderr` is the last line it wrote there.
    Exit { code: Option<i32>, stderr: Option<String> },
    /// It outlived its timeout and was killed.
    Timeout { ms: u128 },
    /// It succeeded and produced nothing usable.
    Empty { stderr: Option<String> },
    /// The popup offered an action the loaded config no longer has, so nothing
    /// ran. `position` is 1-based.
    NoSuchAction { position: usize, available: usize },
}

/// The model of an [`ActionFailure`].
pub enum FailureView {
    Spawn(Seq<char>),
    Exit { code: Option<i32>, stderr: Option<Seq<char>> },
    Timeout { ms: u128 },
    Empty { stderr: Option<Seq<char>> },
    NoSuchAction { position: usize, available: usize },
}

impl View for ActionFailure {
    type V = FailureView;

    open spec fn view(&self) -> FailureView {
        match *self {
            ActionFailure::Spawn(e) => FailureView::Spawn(e@),
            ActionFailure::Exit { code, stderr } => FailureView::Exit {
                code,
                stderr: text::opt_text(stderr),
            },
            ActionFailure::Timeout { ms } => FailureView::Timeout { ms },
            ActionFailure::Empty { stderr } => FailureView::Empty { stderr: text::opt_text(stderr) },
            ActionFailure::NoSuchAction { position, available } => FailureView::NoSuchAction {
                position,
                available,
            },
        }
    }
}

impl Clone for ActionFailure {
    fn clone(&self) -> (r: Self)
        ensures
            r == *self,
    {
        match self {
            ActionFailure::Spawn(e) => ActionFailure::Spawn(e.clone()),
            ActionFailure::Exit { code, stderr } => ActionFailure::Exit {
                code: *code,
                stderr: stderr.clone(),
            },
            ActionFailure::Timeout { ms } => ActionFailure::Timeout { ms: *ms },
            ActionFailure::Empty { stderr } => ActionFailure::Empty { stderr: stderr.clone() },
            ActionFailure::NoSuchAction { position, available } => ActionFailure::NoSuchAction {
                position: *position,
                available: *available,
            },
        }
    }
}

/// What an action produced: the text to use, and why it is the original if it is.
#[derive(Debug, PartialEq, Eq)]
pub struct ActionOutcome {
    /// Always safe to paste: the action's output on success, the input otherwise.
    pub text: String,
    /// `None` on success.
    pub failure: Option<ActionFailure>,
}

/// The model of an [`ActionOutcome`].
pub struct OutcomeView {
    pub text: Seq<char>,
    pub failure: Option<FailureView>,
}

impl View for ActionOutcome {
    type V = OutcomeView;

    open spec fn view(&self) -> OutcomeView {
        OutcomeView {
            text: self.text@,
            failure: match self.failure {
                Some(f) => Some(f@),
                None => None,
            },
        }
    }
}

impl Clone for ActionOutcome {
    fn clone(&self) -> (r: Self)
        ensures
            r == *self,
    {
        ActionOutcome { text: self.text.clone(), failure: self.failure.clone() }
    }
}

impl ActionOutcome {
    /// A success that produced `text`.
    pub fn ok(text: String) -> (r: Self)
        ensures
            r@ == (OutcomeView { text: text@, failure: None }),
    {
        ActionOutcome { text, failure: None }
    }

    /// A failure that leaves `text` as it was.
    pub fn failed(text: &str, failure: ActionFailure) -> (r: Self)
        ensures
            r@ == (OutcomeView { text: text@, failure: Some(failure@) }),
    {
        ActionOutcome { text: text.to_string(), failure: Some(failure) }
    }
}

// ---------------------------------------------------------------------------
// Messages
// ---------------------------------------------------------------------------

/// The line an operator is shown for a failure.
pub open spec fn failure_message(f: FailureView) -> Seq<char> {
    match f {
        FailureView::Spawn(e) => "could not start the action: "@ + e,
        FailureView::Exit { code, stderr } => {
            let how = match code {
                Some(c) => "exited "@ + text::decimal_int(c as int),
                None => "was killed by a signal"@,
            };
            match stderr {
                Some(s) => "the action "@ + how + ": "@ + s,
                None => "the action "@ + how + " and wrote nothing to stderr"@,
            }
        },
        FailureView::Timeout { ms } => "the action was still running after "@ + text::decimal(
            ms as nat,
        ) + "ms and was stopped"@,
        FailureView::Empty { stderr } => match stderr {
            Some(s) => "the action produced no output: "@ + s,
            None => "the action produced no output"@,
        },
        FailureView::NoSuchAction { position, available } => {
            let list = if available == 0 {
                "the action list is now empty"@
            } else if available == 1 {
                "the action list now has 1 action"@
            } else {
                "the action list now has "@ + text::decimal(available as nat) + " actions"@
            };
            "you asked for action "@ + text::decimal(position as nat) + ", but "@ + list
                + " — it changed while the popup was open"@
        },
    }
}

impl ActionFailure {
    /// One line addressed to the operator, quoting the command's own words where
    /// it said any.
    pub fn message(&self) -> (r: String)
        ensures
            r@ == failure_message(self@),
    {
        match self {
            ActionFailure::Spawn(e) => {
                let mut out = "could not start the action: ".to_string();
                out.append(e.as_str());
                out
            },
            ActionFailure::Exit { code, stderr } => {
                let how = match code {
                    Some(c) => {
                        let mut how = "exited ".to_string();
                        how.append(text::to_decimal_int(*c as i128).as_str());
                        how
                    },
                    None => "was killed by a signal".to_string(),
                };
                let mut out = "the action ".to_string();
                out.append(how.as_str());
                match stderr {
                    Some(s) => {
                        out.append(": ");
                        out.append(s.as_str());
                    },
                    None => {
                        out.append(" and wrote nothing to stderr");
                    },
                }
                out
            },
            ActionFailure::Timeout { ms } => {
                let mut out = "the action was still running after ".to_string();
                out.append(text::to_decimal(*ms).as_str());
                out.append("ms and was stopped");
                out
            },
            ActionFailure::Empty { stderr } => match stderr {
                Some(s) => {
                    let mut out = "the action produced no output: ".to_string();
                    out.append(s.as_str());
                    out
                },
                None => "the action produced no output".to_string(),
            },
            ActionFailure::NoSuchAction { position, available } => {
                let list = if *available == 0 {
                    "the action list is now empty".to_string()
                } else if *available == 1 {
                    "the action list now has 1 action".to_string()
                } else {
                    let mut list = "the action list now has ".to_string();
                    list.append(text::to_decimal(*available as u128).as_str());
                    list.append(" actions");
                    list
                };
                let mut out = "you asked for action ".to_string();
                out.append(text::to_decimal(*position as u128).as_str());
                out.append(", but ");
                out.append(list.as_str());
                out.append(" — it changed while the popup was open");
                out
            },
        }
    }
}

/// Which of the failure modes `f` is.
pub open spec fn failure_mode(f: FailureView) -> int {
    match f {
        FailureView::Spawn(_) => 0,
        FailureView::Exit { .. } => 1,
        FailureView::Timeout { .. } => 2,
        FailureView::Empty { .. } => 3,
        FailureView::NoSuchAction { .. } => 4,
    }
}

/// Every failure mode reads differently from every other, whatever the command
/// wrote.
pub proof fn law_failure_modes_read_differently(a: FailureView, b: FailureView)
    requires
        failure_mode(a) != failure_mode(b),
    ensures
        failure_message(a) != failure_message(b),
{
    lemma_message_opening(a);
    lemma_message_opening(b);
}

/// How the message of each failure mode opens.
proof fn lemma_message_opening(f: FailureView)
    ensures
        failure_message(f).len() >= 20,
        failure_message(f)[0] == 'c' <==> f is Spawn,
        failure_message(f)[0] == 'y' <==> f is NoSuchAction,
        f is Exit ==> failure_message(f)[11] == 'e' || failure_message(f)[15] == 'k',
        f is Timeout ==> failure_message(f)[11] == 'w' && failure_message(f)[15] == 's',
        f is Empty ==> failure_message(f)[11] == 'p' && failure_message(f)[15] == 'u',
{
    reveal_strlit("could not start the action: ");
    reveal_strlit("exited ");
    reveal_strlit("was killed by a signal");
    reveal_strlit("the action ");
    reveal_strlit(": ");
    reveal_strlit(" and wrote nothing to stderr");
    reveal_strlit("the action was still running after ");
    reveal_strlit("the action produced no output: ");
    reveal_strlit("the action produced no output");
    reveal_strlit("you asked for action ");
    reveal_strlit(" — it changed while the popup was open");
    match f {
        FailureView::Exit { code, stderr } => {
            let how = match code {
                Some(c) => "exited "@ + text::decimal_int(c as int),
                None => "was killed by a signal"@,
            };
            assert(failure_message(f)[11] == how[0]);
            assert(failure_message(f)[15] == how[4]);
        },
        _ => {},
    }
}

/// Texts that agree behind the same opening agree.
proof fn lemma_same_behind(head: Seq<char>, x: Seq<char>, y: Seq<char>)
    requires
        head + x == head + y,
    ensures
        x == y,
{
    assert(x =~= (head + x).skip(head.len() as int));
    assert(y =~= (head + y).skip(head.len() as int));
}

/// Texts that agree before the same ending agree.
proof fn lemma_same_before(x: Seq<char>, y: Seq<char>, tail: Seq<char>)
    requires
        x + tail == y + tail,
    ensures
        x == y,
{
    assert((x + tail).len() == x.len() + tail.len());
    assert((y + tail).len() == y.len() + tail.len());
    assert(x =~= (x + tail).take(x.len() as int));
    assert(y =~= (y + tail).take(x.len() as int));
}

proof fn lemma_exit_messages(
    c: Option<i32>,
    s: Option<Seq<char>>,
    d: Option<i32>,
    t: Option<Seq<char>>,
)
    requires
        failure_message(FailureView::Exit { code: c, stderr: s }) == failure_message(
            FailureView::Exit { code: d, stderr: t },
        ),
    ensures
        c == d,
        s == t,
{
    reveal_strlit("exited ");
    reveal_strlit("was killed by a signal");
    reveal_strlit(": ");
    reveal_strlit(" and wrote nothing to stderr");
    let how = |code: Option<i32>|
        match code {
            Some(n) => "exited "@ + text::decimal_int(n as int),
            None => "was killed by a signal"@,
        };
    let said = |stderr: Option<Seq<char>>|
        match stderr {
            Some(words) => ": "@ + words,
            None => " and wrote nothing to stderr"@,
        };
    let a = failure_message(FailureView::Exit { code: c, stderr: s });
    let b = failure_message(FailureView::Exit { code: d, stderr: t });
    assert(a =~= "the action "@ + (how(c) + said(s)));
    assert(b =~= "the action "@ + (how(d) + said(t)));
    lemma_same_behind("the action "@, how(c) + said(s), how(d) + said(t));
    assert((how(c) + said(s))[0] == how(c)[0]);
    assert((how(d) + said(t))[0] == how(d)[0]);
    assert(c is Some <==> d is Some);
    match (c, d) {
        (Some(m), Some(n)) => {
            let x = text::decimal_int(m as int) + said(s);
            let y = text::decimal_int(n as int) + said(t);
            assert(how(c) + said(s) =~= "exited "@ + x);
            assert(how(d) + said(t) =~= "exited "@ + y);
            lemma_same_behind("exited "@, x, y);
            text::lemma_number_then(m as int, n as int, said(s), said(t));
        },
        _ => lemma_same_behind("was killed by a signal"@, said(s), said(t)),
    }
    assert(said(s)[0] == said(t)[0]);
    match (s, t) {
        (Some(x), Some(y)) => lemma_same_behind(": "@, x, y),
        _ => {},
    }
}

proof fn lemma_list_messages(p: usize, n: usize, q: usize, m: usize)
    requires
        failure_message(FailureView::NoSuchAction { position: p, available: n })
            == failure_message(FailureView::NoSuchAction { position: q, available: m }),
    ensures
        p == q,
        n == m,
{
    reveal_strlit(", but ");
    reveal_strlit("the action list is now empty");
    reveal_strlit("the action list now has 1 action");
    reveal_strlit("the action list now has ");
    reveal_strlit(" actions");
    reveal_strlit(" action");
    let list = |available: usize|
        if available == 0 {
            "the action list is now empty"@
        } else if available == 1 {
            "the action list now has 1 action"@
        } else {
            "the action list now has "@ + text::decimal(available as nat) + " actions"@
        };
    let tail = " — it changed while the popup was open"@;
    let x = ", but "@ + (list(n) + tail);
    let y = ", but "@ + (list(m) + tail);
    let a = failure_message(FailureView::NoSuchAction { position: p, available: n });
    let b = failure_message(FailureView::NoSuchAction { position: q, available: m });
    assert(a =~= "you asked for action "@ + (text::decimal_int(p as int) + x));
    assert(b =~= "you asked for action "@ + (text::decimal_int(q as int) + y));
    lemma_same_behind(
        "you asked for action "@,
        text::decimal_int(p as int) + x,
        text::decimal_int(q as int) + y,
    );
    text::lemma_number_then(p as int, q as int, x, y);
    lemma_same_behind(", but "@, list(n) + tail, list(m) + tail);
    lemma_same_before(list(n), list(m), tail);
    let count = |available: usize|
        text::decimal_int(available as int) + if available == 1 {
            " action"@
        } else {
            " actions"@
        };
    if n == 0 || m == 0 {
        assert(list(n)[16] == list(m)[16]);
    } else {
        lemma_counted_list(n);
        lemma_counted_list(m);
        lemma_same_behind("the action list now has "@, count(n), count(m));
        text::lemma_number_then(
            n as int,
            m as int,
            if n == 1 { " action"@ } else { " actions"@ },
            if m == 1 { " action"@ } else { " actions"@ },
        );
    }
}

proof fn lemma_counted_list(n: usize)
    requires
        n > 0,
    ensures
        "the action list now has "@ + (text::decimal_int(n as int) + if n == 1 {
            " action"@
        } else {
            " actions"@
        }) == if n == 1 {
            "the action list now has 1 action"@
        } else {
            "the action list now has "@ + text::decimal(n as nat) + " actions"@
        },
{
    reveal_strlit("the action list now has 1 action");
    reveal_strlit("the action list now has ");
    reveal_strlit(" action");
    if n == 1 {
        assert(text::decimal_int(1) =~= seq!['1']);
        assert("the action list now has 1 action"@ =~= "the action list now has "@ + (seq!['1']
            + " action"@));
    } else {
        assert("the action list now has "@ + (text::decimal_int(n as int) + " actions"@)
            =~= "the action list now has "@ + text::decimal(n as nat) + " actions"@);
    }
}

/// The message tells a failure apart from every other: the mode, and within it
/// the exit status, the time, the count and the words of the command.
pub proof fn law_a_message_tells_its_failure(a: FailureView, b: FailureView)
    requires
        failure_message(a) == failure_message(b),
    ensures
        a == b,
{
    reveal_strlit("ms and was stopped");
    reveal_strlit("the action produced no output: ");
    reveal_strlit("the action produced no output");
    if failure_mode(a) != failure_mode(b) {
        law_failure_modes_read_differently(a, b);
    }
    match (a, b) {
        (FailureView::Spawn(x), FailureView::Spawn(y)) => {
            lemma_same_behind("could not start the action: "@, x, y);
        },
        (
            FailureView::Exit { code: c, stderr: s },
            FailureView::Exit { code: d, stderr: t },
        ) => lemma_exit_messages(c, s, d, t),
        (FailureView::Timeout { ms: m }, FailureView::Timeout { ms: n }) => {
            let head = "the action was still running after "@;
            let tail = "ms and was stopped"@;
            assert(failure_message(a) =~= head + (text::decimal_int(m as int) + tail));
            assert(failure_message(b) =~= head + (text::decimal_int(n as int) + tail));
            lemma_same_behind(
                head,
                text::decimal_int(m as int) + tail,
                text::decimal_int(n as int) + tail,
            );
            text::lemma_number_then(m as int, n as int, tail, tail);
        },
        (FailureView::Empty { stderr: s }, FailureView::Empty { stderr: t }) => match (s, t) {
            (Some(x), Some(y)) => lemma_same_behind("the action produced no output: "@, x, y),
            _ => {},
        },
        (
            FailureView::NoSuchAction { position: p, available: n },
            FailureView::NoSuchAction { position: q, available: m },
        ) => lemma_list_messages(p, n, q, m),
        _ => {},
    }
}

/// Where a command or the operating system said something, the message ends in
/// those words, as they were.
pub proof fn law_a_message_quotes_what_was_said(f: FailureView, words: Seq<char>)
    requires
        match f {
            FailureView::Spawn(e) => e == words,
            FailureView::Exit { stderr, .. } => stderr == Some(words),
            FailureView::Empty { stderr } => stderr == Some(words),
            _ => false,
        },
    ensures
        words.is_suffix_of(failure_message(f)),
{
    let m = failure_message(f);
    assert(words =~= m.subrange(m.len() - words.len(), m.len() as int));
}

/// The message names what is known of the failure: the status of the command, the
/// time it was given, or the position that was asked for and how many actions
/// there are.
pub proof fn law_a_message_names_its_numbers(f: FailureView)
    ensures
        f matches FailureView::Exit { code, .. } ==> (code matches Some(c) ==> text::holds(
            failure_message(f),
            "exited "@ + text::decimal_int(c as int),
        )),
        f matches FailureView::Timeout { ms } ==> text::holds(
            failure_message(f),
            " after "@ + text::decimal(ms as nat) + "ms"@,
        ),
        f matches FailureView::NoSuchAction { position, available } ==> text::holds(
            failure_message(f),
            "asked for action "@ + text::decimal(position as nat) + ","@,
        ) && (available > 1 ==> text::holds(
            failure_message(f),
            " has "@ + text::decimal(available as nat) + " actions"@,
        )),
{
    reveal_strlit("the action ");
    reveal_strlit("the action was still running after ");
    reveal_strlit("ms and was stopped");
    reveal_strlit(" after ");
    reveal_strlit("ms");
    reveal_strlit("you asked for action ");
    reveal_strlit("asked for action ");
    reveal_strlit(", but ");
    reveal_strlit(",");
    reveal_strlit("the action list now has ");
    reveal_strlit(" has ");
    let m = failure_message(f);
    match f {
        FailureView::Exit { code: Some(c), stderr } => {
            let pat = "exited "@ + text::decimal_int(c as int);
            assert(m.subrange(11, 11 + pat.len() as int) =~= pat);
            assert(text::occurs_at(m, pat, 11));
        },
        FailureView::Timeout { ms } => {
            let pat = " after "@ + text::decimal(ms as nat) + "ms"@;
            assert(m.subrange(28, 28 + pat.len() as int) =~= pat);
            assert(text::occurs_at(m, pat, 28));
        },
        FailureView::NoSuchAction { position, available } => {
            let p = text::decimal(position as nat);
            let pat = "asked for action "@ + p + ","@;
            assert(m.subrange(4, 4 + pat.len() as int) =~= pat);
            assert(text::occurs_at(m, pat, 4));
            if available > 1 {
                let count = " has "@ + text::decimal(available as nat) + " actions"@;
                let at = 21 + p.len() as int + 6 + 19;
                assert(m.subrange(at, at + count.len()) =~= count);
                assert(text::occurs_at(m, count, at));
            }
        },
        _ => {},
    }
}

/// The models leave nothing out: an action is its label, its key and its command, an
/// outcome its text and its failure, and a failure what is known of it.
pub proof fn law_the_models_are_faithful(a: Action, o: ActionOutcome, f: ActionFailure)
    ensures
        a@.label == a.label@ && a@.key == a.key && a@.command == a.command@,
        o@.text == o.text@,
        o.failure is None <==> o@.failure is None,
        o.failure matches Some(g) ==> o@.failure == Some(g@),
        f matches ActionFailure::Spawn(e) ==> f@ == FailureView::Spawn(e@),
        f matches ActionFailure::Timeout { ms } ==> f@ == (FailureView::Timeout { ms }),
        f matches ActionFailure::Exit { code, stderr } ==> f@ == (FailureView::Exit {
            code,
            stderr: match stderr {
                Some(s) => Some(s@),
                None => None,
            },
        }),
        f matches ActionFailure::Empty { stderr } ==> f@ == (FailureView::Empty {
            stderr: match stderr {
                Some(s) => Some(s@),
                None => None,
            },
        }),
        f matches ActionFailure::NoSuchAction { position, available } ==> f@ == (
        FailureView::NoSuchAction { position, available }),
{
}

} // verus!
