//! Running an action: the decisions between spawning a command and handing its
//! result on.
//!
//! Losing a dictation is the one unacceptable outcome, so every failure hands
//! back the text that went in.

use vstd::prelude::*;

use crate::action::{Action, ActionFailure, ActionOutcome, FailureView, OutcomeView};
use crate::decision;
use crate::terminal;
use crate::text;

verus! {

/// The longest diagnosis shown, in characters.
pub const DIAGNOSIS_LIMIT: usize = 200;

/// How long to wait before looking at a running command again.
pub const POLL_MS: u64 = 20;

// ---------------------------------------------------------------------------
// The diagnosis a command left on stderr
// ---------------------------------------------------------------------------

/// A line as it is shown: without the whitespace around it and without control
/// codes.
pub open spec fn shown(line: Seq<char>) -> Seq<char> {
    terminal::sanitized(text::trimmed(line))
}

/// The last line that shows anything, as it is shown.
pub open spec fn last_shown(lines: Seq<Seq<char>>) -> Option<Seq<char>>
    decreases lines.len(),
{
    if lines.len() == 0 {
        None
    } else if shown(lines.last()).len() > 0 {
        Some(shown(lines.last()))
    } else {
        last_shown(lines.drop_last())
    }
}

/// At most [`DIAGNOSIS_LIMIT`] characters of `s`, with `…` where more were cut.
pub open spec fn clipped(s: Seq<char>) -> Seq<char> {
    if s.len() > DIAGNOSIS_LIMIT {
        s.take(DIAGNOSIS_LIMIT as int) + "…"@
    } else {
        s
    }
}

/// What is quoted of the text a command wrote to stderr: its last line that is
/// not empty once it is cleaned, and no more of it than the limit.
pub open spec fn diagnosis(stderr: Seq<char>) -> Option<Seq<char>> {
    match last_shown(text::line_list(stderr)) {
        None => None,
        Some(line) => Some(clipped(line)),
    }
}

/// The last line of a text that is not empty once it is cleaned, bounded.
pub fn quote_stderr(stderr: &str) -> (r: Option<String>)
    ensures
        text::opt_text(r) == diagnosis(stderr@),
{
    let all = text::lines(stderr);
    let ghost views = text::texts(all@);
    let mut n: usize = all.len();
    assert(views.take(n as int) =~= views);
    while n > 0
        invariant
            n <= all@.len(),
            views == text::texts(all@),
            views == text::line_list(stderr@),
            last_shown(views.take(n as int)) == last_shown(views),
        decreases n,
    {
        let line = terminal::sanitize(text::trim(all[n - 1].as_str()).as_str());
        let ghost upto = views.take(n as int);
        assert(upto.last() == all@[n - 1]@);
        assert(upto.drop_last() =~= views.take(n - 1));
        if !line.as_str().is_empty() {
            let chars = text::chars_of(line.as_str());
            if chars.len() > DIAGNOSIS_LIMIT {
                let mut cut = text::string_of(&chars, 0, DIAGNOSIS_LIMIT);
                assert(cut@ =~= chars@.take(DIAGNOSIS_LIMIT as int));
                cut.append("…");
                return Some(cut);
            }
            return Some(line);
        }
        n = n - 1;
    }
    assert(views.take(0).len() == 0);
    None
}

/// The last non-empty line a command wrote to stderr, cleaned and bounded.
///
/// Last rather than first: a shell pipeline reports the failing stage last, and
/// tools that print a banner before their error would otherwise hand back the
/// banner.
pub fn last_stderr_line(raw: &[u8]) -> (r: Option<String>)
    ensures
        text::opt_text(r) == diagnosis(text::as_read(raw@)),
{
    let stderr = text::read_bytes(raw);
    quote_stderr(stderr.as_str())
}

// ---------------------------------------------------------------------------
// Waiting for a command
// ---------------------------------------------------------------------------

/// What one look at a running command found.
#[derive(Debug)]
pub enum Poll {
    /// It has exited.
    Exited { success: bool, code: Option<i32> },
    /// It is still running, this long after it was started.
    Running { waited_ms: u128 },
    /// It could not be looked at.
    Failed(String),
}

/// What to do after one look at a running command.
#[derive(Debug)]
pub enum Wait {
    /// Collect what it wrote and conclude.
    Collect { success: bool, code: Option<i32> },
    /// Look again after this long.
    Sleep { ms: u64 },
    /// Kill it: its time is up.
    Kill,
    /// Give up on it.
    Lost(String),
}

/// The step after one look at a command that may run for `timeout_ms`.
pub fn wait_step(poll: Poll, timeout_ms: u64) -> (r: Wait)
    ensures
        r == match poll {
            Poll::Exited { success, code } => Wait::Collect { success, code },
            Poll::Running { waited_ms } => if waited_ms >= timeout_ms {
                Wait::Kill
            } else {
                Wait::Sleep { ms: POLL_MS }
            },
            Poll::Failed(e) => Wait::Lost(e),
        },
{
    match poll {
        Poll::Exited { success, code } => Wait::Collect { success, code },
        Poll::Running { waited_ms } => {
            if waited_ms >= timeout_ms as u128 {
                Wait::Kill
            } else {
                Wait::Sleep { ms: POLL_MS }
            }
        },
        Poll::Failed(e) => Wait::Lost(e),
    }
}

// ---------------------------------------------------------------------------
// What a run comes to
// ---------------------------------------------------------------------------

/// What became of the command of one run.
#[derive(Debug)]
pub enum ChildEnd {
    /// It was never started.
    NotStarted(String),
    /// It was started and could not be watched.
    Lost(String),
    /// It was killed when its time was up.
    TimedOut,
    /// It exited. `stderr` is missing when it could not be read.
    Exited { success: bool, code: Option<i32>, stdout: Vec<u8>, stderr: Option<Vec<u8>> },
}

/// What a command that exited comes to, given the text it wrote.
pub open spec fn judgement(
    original: Seq<char>,
    success: bool,
    code: Option<i32>,
    stdout: Seq<char>,
    stderr: Option<Seq<char>>,
) -> OutcomeView {
    let quoted = match stderr {
        Some(t) => diagnosis(t),
        None => None,
    };
    if !success {
        OutcomeView { text: original, failure: Some(FailureView::Exit { code, stderr: quoted }) }
    } else if terminal::sanitized(stdout).len() == 0 {
        OutcomeView { text: original, failure: Some(FailureView::Empty { stderr: quoted }) }
    } else {
        OutcomeView { text: terminal::sanitized(stdout), failure: None }
    }
}

/// What a run over `original` comes to.
pub open spec fn conclusion(original: Seq<char>, timeout_ms: u64, end: ChildEnd) -> OutcomeView {
    match end {
        ChildEnd::NotStarted(e) => OutcomeView {
            text: original,
            failure: Some(FailureView::Spawn(e@)),
        },
        ChildEnd::Lost(e) => OutcomeView { text: original, failure: Some(FailureView::Spawn(e@)) },
        ChildEnd::TimedOut => OutcomeView {
            text: original,
            failure: Some(FailureView::Timeout { ms: timeout_ms as u128 }),
        },
        ChildEnd::Exited { success, code, stdout, stderr } => judgement(
            original,
            success,
            code,
            text::as_read(stdout@),
            match stderr {
                Some(bytes) => Some(text::as_read(bytes@)),
                None => None,
            },
        ),
    }
}

/// What a command that exited comes to, given the text it wrote.
pub fn judge(
    original: &str,
    success: bool,
    code: Option<i32>,
    stdout: &str,
    stderr: Option<String>,
) -> (r: ActionOutcome)
    ensures
        r@ == judgement(original@, success, code, stdout@, text::opt_text(stderr)),
{
    let quoted = match &stderr {
        Some(t) => quote_stderr(t.as_str()),
        None => None,
    };
    if !success {
        return ActionOutcome::failed(original, ActionFailure::Exit { code, stderr: quoted });
    }
    let cleaned = terminal::sanitize(stdout);
    if cleaned.as_str().is_empty() {
        ActionOutcome::failed(original, ActionFailure::Empty { stderr: quoted })
    } else {
        ActionOutcome::ok(cleaned)
    }
}

/// What a run of an action over `original` comes to.
///
/// The text handed back is the original, unchanged, on any failure: an error
/// from the operating system, a non-zero exit, a timeout, or empty output.
pub fn conclude(original: &str, timeout_ms: u64, end: ChildEnd) -> (r: ActionOutcome)
    ensures
        r@ == conclusion(original@, timeout_ms, end),
{
    match end {
        ChildEnd::NotStarted(e) => ActionOutcome::failed(original, ActionFailure::Spawn(e)),
        ChildEnd::Lost(e) => ActionOutcome::failed(original, ActionFailure::Spawn(e)),
        ChildEnd::TimedOut => ActionOutcome::failed(
            original,
            ActionFailure::Timeout { ms: timeout_ms as u128 },
        ),
        ChildEnd::Exited { success, code, stdout, stderr } => {
            let written = text::read_bytes(stdout.as_slice());
            let complaint = match &stderr {
                Some(bytes) => Some(text::read_bytes(bytes.as_slice())),
                None => None,
            };
            judge(original, success, code, written.as_str(), complaint)
        },
    }
}

/// Run an action over `text`, within a time in milliseconds. `command` runs a
/// shell command over a text and tells what became of it.
pub fn run_action<F: FnOnce(&str, &str, u64) -> ChildEnd>(
    action: &Action,
    text: &str,
    timeout_ms: u64,
    command: F,
) -> (r: ActionOutcome)
    requires
        forall|c: &str, t: &str, ms: u64| command.requires((c, t, ms)),
    ensures
        exists|c: &str, end: ChildEnd|
            {
                &&& c@ == action@.command
                &&& #[trigger] command.ensures((c, text, timeout_ms), end)
                &&& r@ == conclusion(text@, timeout_ms, end)
            },
{
    let end = command(action.command.as_str(), text, timeout_ms);
    conclude(text, timeout_ms, end)
}

/// A failed action returns the text that went in, whatever became of its
/// command.
pub proof fn law_a_failed_action_returns_the_original(
    original: Seq<char>,
    timeout_ms: u64,
    end: ChildEnd,
)
    ensures
        conclusion(original, timeout_ms, end).failure is Some ==> conclusion(
            original,
            timeout_ms,
            end,
        ).text == original,
{
}

/// An action that reports no failure produced text: not empty, without control
/// codes, and without whitespace around it.
pub proof fn law_a_successful_action_produced_clean_text(
    original: Seq<char>,
    timeout_ms: u64,
    end: ChildEnd,
)
    requires
        conclusion(original, timeout_ms, end).failure is None,
    ensures
        ({
            let out = conclusion(original, timeout_ms, end).text;
            &&& out.len() > 0
            &&& !text::is_space(out[0])
            &&& !text::is_space(out.last())
            &&& forall|i: int| 0 <= i < out.len() ==> !terminal::is_control(#[trigger] out[i])
        }),
{
    if let ChildEnd::Exited { success, code, stdout, stderr } = end {
        terminal::law_sanitized_has_no_outer_whitespace(text::as_read(stdout@));
        terminal::law_sanitized_holds_no_control_character(text::as_read(stdout@));
    }
}

/// A dictation is never lost. Whatever the box holds and whatever becomes of a
/// command, what is sent on is blank only where the dictation was.
pub proof fn law_a_dictation_is_never_lost(
    original: Seq<char>,
    edited: Seq<char>,
    timeout_ms: u64,
    end: ChildEnd,
)
    requires
        !text::blank(original),
    ensures
        !text::blank(decision::text_to_use(edited, original)),
        !text::blank(
            conclusion(decision::text_to_use(edited, original), timeout_ms, end).text,
        ),
{
    let base = decision::text_to_use(edited, original);
    let out = conclusion(base, timeout_ms, end);
    if out.failure is Some {
        law_a_failed_action_returns_the_original(base, timeout_ms, end);
    } else {
        law_a_successful_action_produced_clean_text(base, timeout_ms, end);
        text::lemma_blank(out.text);
    }
}

/// What is quoted of stderr is bounded: the limit, and the mark of a cut.
pub proof fn law_a_diagnosis_is_bounded(stderr: Seq<char>)
    ensures
        diagnosis(stderr) matches Some(d) ==> 0 < d.len() <= DIAGNOSIS_LIMIT + 1,
{
    reveal_strlit("…");
    lemma_last_shown(text::line_list(stderr));
}

/// What is quoted of stderr holds no control code.
pub proof fn law_a_diagnosis_holds_no_control_character(stderr: Seq<char>)
    ensures
        diagnosis(stderr) matches Some(d) ==> forall|i: int|
            0 <= i < d.len() ==> !terminal::is_control(#[trigger] d[i]),
{
    reveal_strlit("…");
    lemma_last_shown(text::line_list(stderr));
}

/// A command that wrote something to be seen to stderr has a diagnosis, and one
/// that wrote nothing of the kind has none.
pub proof fn law_what_shows_is_quoted(stderr: Seq<char>)
    ensures
        diagnosis(stderr) is Some <==> exists|i: int|
            0 <= i < text::line_list(stderr).len() && #[trigger] shown(
                text::line_list(stderr)[i],
            ).len() > 0,
{
    lemma_last_shown(text::line_list(stderr));
}

proof fn lemma_last_shown(lines: Seq<Seq<char>>)
    ensures
        last_shown(lines) matches Some(line) ==> line.len() > 0 && forall|i: int|
            0 <= i < line.len() ==> !terminal::is_control(#[trigger] line[i]),
        last_shown(lines) is Some <==> exists|i: int|
            0 <= i < lines.len() && #[trigger] shown(lines[i]).len() > 0,
    decreases lines.len(),
{
    if lines.len() > 0 {
        let before = lines.drop_last();
        terminal::law_sanitized_holds_no_control_character(text::trimmed(lines.last()));
        lemma_last_shown(before);
        assert(shown(lines.last()) == shown(lines[lines.len() - 1]));
        if last_shown(before) is Some {
            let i = choose|i: int| 0 <= i < before.len() && #[trigger] shown(before[i]).len() > 0;
            assert(shown(lines[i]).len() > 0);
        }
        assert forall|i: int| 0 <= i < lines.len() && #[trigger] shown(lines[i]).len() > 0
            && i != lines.len() - 1 implies last_shown(before) is Some by {
            assert(shown(before[i]).len() > 0);
        }
    }
}

/// Only a command that exits well and shows something succeeds. One that did not
/// start, could not be watched, was stopped, or exited otherwise has failed,
/// whatever it wrote: the text is the original, and the failure says which of
/// these it was and with what status.
pub proof fn law_only_a_good_exit_succeeds(original: Seq<char>, timeout_ms: u64, end: ChildEnd)
    ensures
        ({
            let out = conclusion(original, timeout_ms, end);
            match end {
                ChildEnd::NotStarted(e) => out.text == original && out.failure == Some(
                    FailureView::Spawn(e@),
                ),
                ChildEnd::Lost(e) => out.text == original && out.failure == Some(
                    FailureView::Spawn(e@),
                ),
                ChildEnd::TimedOut => out.text == original && out.failure == Some(
                    FailureView::Timeout { ms: timeout_ms as u128 },
                ),
                ChildEnd::Exited { success, code, stdout, stderr } => {
                    let cleaned = terminal::sanitized(text::as_read(stdout@));
                    let quoted = match stderr {
                        Some(bytes) => diagnosis(text::as_read(bytes@)),
                        None => None,
                    };
                    &&& !success ==> out.text == original && out.failure == Some(
                        FailureView::Exit { code, stderr: quoted },
                    )
                    &&& success && cleaned.len() == 0 ==> out.text == original && out.failure
                        == Some(FailureView::Empty { stderr: quoted })
                    &&& success && cleaned.len() > 0 ==> out.text == cleaned && out.failure is None
                },
            }
        }),
{
}

/// What an action prints is what it produces: output that is text, without control
/// codes and without whitespace around it, comes back to the letter, whatever the
/// original was and whatever else was written.
pub proof fn law_plain_output_comes_back_whole(
    original: Seq<char>,
    timeout_ms: u64,
    code: Option<i32>,
    printed: Seq<char>,
    stdout: Vec<u8>,
    stderr: Option<Vec<u8>>,
)
    requires
        stdout@ == vstd::utf8::encode_utf8(printed),
        printed.len() > 0,
        !text::is_space(printed[0]),
        !text::is_space(printed.last()),
        forall|i: int|
            0 <= i < printed.len() ==> (#[trigger] printed[i] >= '\u{20}' || printed[i] == '\n'
                || printed[i] == '\t'),
    ensures
        conclusion(
            original,
            timeout_ms,
            ChildEnd::Exited { success: true, code, stdout, stderr },
        ) == (OutcomeView { text: printed, failure: None }),
{
    text::law_valid_text_is_read_unaltered(printed);
    terminal::law_ordinary_text_is_left_alone(printed);
    text::lemma_trimmed_start_at(printed, 0);
    assert(printed.skip(0) =~= printed);
    text::lemma_trimmed_end_at(printed, printed.len() as int);
    assert(printed.take(printed.len() as int) =~= printed);
}

/// What becomes of a run is told by its command alone: `run_action` hands the
/// command of the action, the text and the time over, and a failure of any kind
/// gives the text back.
pub proof fn law_a_run_hands_over_its_command<F: FnOnce(&str, &str, u64) -> ChildEnd>(
    action: &Action,
    text: &str,
    timeout_ms: u64,
    command: F,
    r: ActionOutcome,
)
    requires
        call_ensures(run_action::<F>, (action, text, timeout_ms, command), r),
    ensures
        exists|c: &str, end: ChildEnd|
            {
                &&& c@ == action.command@
                &&& #[trigger] command.ensures((c, text, timeout_ms), end)
                &&& (end matches ChildEnd::Exited { success, .. } && success) || (r.failure is Some
                    && r.text@ == text@)
                &&& (end matches ChildEnd::Exited { success, code, .. } ==> (!success ==> (r.failure
                    matches Some(ActionFailure::Exit { code: status, .. }) && status == code)))
                &&& (end matches ChildEnd::Exited { success, stdout, .. } ==> (success
                    && terminal::sanitized(text::as_read(stdout@)).len() > 0 ==> r.failure is None
                    && r.text@ == terminal::sanitized(text::as_read(stdout@))))
            },
{
    let (c, end) = choose|c: &str, end: ChildEnd|
        {
            &&& c@ == action@.command
            &&& #[trigger] command.ensures((c, text, timeout_ms), end)
            &&& r@ == conclusion(text@, timeout_ms, end)
        };
    assert(r@.text == r.text@);
    assert(command.ensures((c, text, timeout_ms), end));
    law_only_a_good_exit_succeeds(text@, timeout_ms, end);
    if let Some(f) = r.failure {
        assert(r@.failure == Some(f@));
    }
}

/// A command is waited for until its time is up and no longer: one that has exited
/// is never killed, one that is running is killed as soon as it was given its
/// time, and not before.
pub proof fn law_a_command_is_given_its_time(poll: Poll, timeout_ms: u64, r: Wait)
    requires
        call_ensures(wait_step, (poll, timeout_ms), r),
    ensures
        r is Kill <==> (poll matches Poll::Running { waited_ms } && waited_ms >= timeout_ms),
        poll matches Poll::Running { waited_ms } ==> (waited_ms < timeout_ms ==> (r matches
            Wait::Sleep { ms } && 0 < ms <= 100)),
        poll matches Poll::Exited { success, code } ==> r == (Wait::Collect { success, code }),
        poll matches Poll::Failed(e) ==> r == Wait::Lost(e),
{
}

proof fn lemma_last_shown_is(lines: Seq<Seq<char>>, i: int)
    requires
        0 <= i < lines.len(),
        shown(lines[i]).len() > 0,
        forall|j: int| i < j < lines.len() ==> shown(#[trigger] lines[j]).len() == 0,
    ensures
        last_shown(lines) == Some(shown(lines[i])),
    decreases lines.len(),
{
    if i < lines.len() - 1 {
        assert(lines.last() == lines[lines.len() - 1]);
        let front = lines.drop_last();
        assert(front[i] == lines[i]);
        assert forall|j: int| i < j < front.len() implies shown(#[trigger] front[j]).len() == 0 by {
            assert(front[j] == lines[j]);
        }
        lemma_last_shown_is(front, i);
    }
}

/// What is quoted of stderr is the last line that says anything: to the letter
/// where it is no longer than the limit, and as much of it as the limit allows
/// otherwise, whatever stands above it and whatever blank lines stand below.
pub proof fn law_the_last_line_is_quoted(
    above: Seq<Seq<char>>,
    line: Seq<char>,
    below: Seq<Seq<char>>,
    crlf: bool,
)
    requires
        line.len() > 0,
        !text::is_space(line[0]),
        !text::is_space(line.last()),
        forall|i: int|
            0 <= i < line.len() ==> (#[trigger] line[i] >= '\u{20}' || line[i] == '\t'),
        forall|i: int|
            0 <= i < above.len() ==> !(#[trigger] above[i]).contains('\n') && (above[i].len() > 0
                ==> above[i].last() != '\r'),
        forall|i: int|
            0 <= i < below.len() ==> !(#[trigger] below[i]).contains('\n') && (below[i].len() > 0
                ==> below[i].last() != '\r') && text::blank(below[i]),
    ensures
        ({
            let eol = if crlf {
                seq!['\r', '\n']
            } else {
                seq!['\n']
            };
            let stderr = text::ended(above.push(line) + below, eol);
            &&& line.len() <= 200 ==> diagnosis(stderr) == Some(line)
            &&& line.len() > 200 ==> diagnosis(stderr) == Some(line.take(200).push('…'))
        }),
{
    let all = above.push(line) + below;
    let n = above.len() as int;
    let eol = if crlf {
        seq!['\r', '\n']
    } else {
        seq!['\n']
    };
    let stderr = text::ended(all, eol);
    let nothing: Seq<char> = seq![];
    assert(!line.contains('\n')) by {
        if line.contains('\n') {
            let i = choose|i: int| 0 <= i < line.len() && line[i] == '\n';
            assert(line[i] >= '\u{20}' || line[i] == '\t');
        }
    }
    assert forall|i: int| 0 <= i < all.len() implies !(#[trigger] all[i]).contains('\n') && (
    all[i].len() > 0 ==> all[i].last() != '\r') by {
        if i < n {
            assert(all[i] == above[i]);
        } else if i > n {
            assert(all[i] == below[i - n - 1]);
        }
    }
    text::law_lines_come_apart_as_they_went_together(all, nothing, crlf);
    assert(stderr + nothing =~= stderr);
    assert(all[n] == line);
    text::law_trimming_leaves_what_stands_between(nothing, line, nothing);
    assert(nothing + line + nothing =~= line);
    terminal::law_ordinary_text_is_left_alone(line);
    assert(shown(line) == line);
    assert forall|j: int| n < j < all.len() implies shown(#[trigger] all[j]).len() == 0 by {
        assert(all[j] == below[j - n - 1]);
        assert(text::trimmed(all[j]) =~= nothing);
        text::law_trimming_leaves_what_stands_between(nothing, nothing, nothing);
        assert(nothing + nothing + nothing =~= nothing);
        terminal::law_ordinary_text_is_left_alone(nothing);
    }
    lemma_last_shown_is(all, n);
    reveal_strlit("…");
    assert(line.take(200) + "…"@ =~= line.take(200).push('…'));
}

/// A line that was written with control codes is quoted without them, and lines that
/// hold nothing else below it do not count.
pub proof fn law_a_coloured_line_is_quoted_without_its_colours(
    above: Seq<Seq<char>>,
    line: Seq<char>,
    below: Seq<Seq<char>>,
)
    requires
        terminal::sanitized(text::trimmed(line)).len() > 0,
        forall|i: int|
            0 <= i < above.len() ==> !(#[trigger] above[i]).contains('\n') && (above[i].len() > 0
                ==> above[i].last() != '\r'),
        !line.contains('\n'),
        line.last() != '\r',
        forall|i: int|
            0 <= i < below.len() ==> !(#[trigger] below[i]).contains('\n') && (below[i].len() > 0
                ==> below[i].last() != '\r') && terminal::sanitized(text::trimmed(below[i])).len()
                == 0,
    ensures
        ({
            let said = terminal::sanitized(text::trimmed(line));
            let stderr = text::ended(above.push(line) + below, seq!['\n']);
            &&& said.len() <= 200 ==> diagnosis(stderr) == Some(said)
            &&& said.len() > 200 ==> diagnosis(stderr) == Some(said.take(200).push('…'))
        }),
{
    let all = above.push(line) + below;
    let n = above.len() as int;
    let stderr = text::ended(all, seq!['\n']);
    let nothing: Seq<char> = seq![];
    assert forall|i: int| 0 <= i < all.len() implies !(#[trigger] all[i]).contains('\n') && (
    all[i].len() > 0 ==> all[i].last() != '\r') by {
        if i < n {
            assert(all[i] == above[i]);
        } else if i > n {
            assert(all[i] == below[i - n - 1]);
        }
    }
    text::law_lines_come_apart_as_they_went_together(all, nothing, false);
    assert(stderr + nothing =~= stderr);
    assert(all[n] == line);
    assert forall|j: int| n < j < all.len() implies shown(#[trigger] all[j]).len() == 0 by {
        assert(all[j] == below[j - n - 1]);
    }
    lemma_last_shown_is(all, n);
    reveal_strlit("…");
    let said = terminal::sanitized(text::trimmed(line));
    assert(said.take(200) + "…"@ =~= said.take(200).push('…'));
}

} // verus!
