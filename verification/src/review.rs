//! The popup as a review workspace.
//!
//! Nothing is pasted while it is open. Actions run beside it and their result
//! lands in the transcript box for inspection; only Enter, `0` or Ctrl+Enter
//! commits what the box holds, and Esc falls back to the original transcript at
//! any depth.
//!
//! | key               | focus = list                  | focus = a text box         |
//! |-------------------|-------------------------------|----------------------------|
//! | `0`               | accept the text               | types the digit            |
//! | `1`-`9`           | run the action with that key  | types the digit            |
//! | up / down         | move the highlight            | moves the caret            |
//! | Enter             | accept the text               | newline; in the instructions, run the last action |
//! | Space             | run the highlighted action    | types a space              |
//! | `e` / F2          | enter the transcript box      | types the letter           |
//! | Tab / Shift+Tab   | cycle list, transcript, instructions, and back         ||
//! | Alt+left / right  | step back / forward through the rounds                 ||
//! | Ctrl+Enter        | accept the text                                        ||
//! | Ctrl+I            | start or stop speaking, in the instructions            ||
//! | Esc               | cancel: the original is kept  | leave the box              |

use vstd::prelude::*;

use crate::action::{Action, ActionOutcome, ActionView, OutcomeView};
use crate::text;

verus! {

// ---------------------------------------------------------------------------
// State
// ---------------------------------------------------------------------------

/// Where the keyboard lives. The list is where hotkeys work; the two boxes are
/// where text is typed.
#[derive(Clone, Copy, PartialEq, Eq, Debug, Structural)]
pub enum Focus {
    List,
    Text,
    Instructions,
}

/// The state of the popup.
#[derive(Debug)]
pub struct Review {
    /// What the transcript box holds.
    pub text: String,
    /// The transcript as it arrived.
    pub original: String,
    pub actions: Vec<Action>,
    /// The highlighted action.
    pub selected: usize,
    pub focus: Focus,
    /// The keyboard has yet to move to where `focus` says.
    pub focus_pending: bool,
    /// What the instructions box holds.
    pub instructions: String,
    /// The action that Enter runs from the instructions box: the last one that
    /// was run, or the first.
    pub last_action: usize,
    /// Every text that a round produced. The first is the original.
    pub history: Vec<String>,
    /// The round that is shown.
    pub history_idx: usize,
    /// The action that is running.
    pub running: Option<usize>,
    /// The microphone is being captured.
    pub recording: bool,
    /// A capture is being transcribed.
    pub transcribing: bool,
    pub error: Option<String>,
}

/// The model of a [`Review`].
#[verifier::ext_equal]
pub struct ReviewView {
    pub text: Seq<char>,
    pub original: Seq<char>,
    pub actions: Seq<ActionView>,
    pub selected: int,
    pub focus: Focus,
    pub focus_pending: bool,
    pub instructions: Seq<char>,
    pub last_action: int,
    pub history: Seq<Seq<char>>,
    pub history_idx: int,
    pub running: Option<usize>,
    pub recording: bool,
    pub transcribing: bool,
    pub error: Option<Seq<char>>,
}

impl View for Review {
    type V = ReviewView;

    open spec fn view(&self) -> ReviewView {
        ReviewView {
            text: self.text@,
            original: self.original@,
            actions: crate::action::action_views(self.actions@),
            selected: self.selected as int,
            focus: self.focus,
            focus_pending: self.focus_pending,
            instructions: self.instructions@,
            last_action: self.last_action as int,
            history: text::texts(self.history@),
            history_idx: self.history_idx as int,
            running: self.running,
            recording: self.recording,
            transcribing: self.transcribing,
            error: text::opt_text(self.error),
        }
    }
}

/// What holds of the popup at all times: the first round is the original, a
/// round is shown, and what is highlighted or running is an action.
pub open spec fn consistent(v: ReviewView) -> bool {
    &&& v.history.len() > 0
    &&& v.history[0] == v.original
    &&& 0 <= v.history_idx < v.history.len()
    &&& v.selected == 0 || v.selected < v.actions.len()
    &&& v.last_action == 0 || v.last_action < v.actions.len()
    &&& v.running matches Some(i) ==> i < v.actions.len()
    &&& !(v.recording && v.transcribing)
}

/// The popup as it opens.
pub open spec fn opened(initial: Seq<char>, actions: Seq<ActionView>) -> ReviewView {
    ReviewView {
        text: initial,
        original: initial,
        actions,
        selected: 0,
        focus: Focus::List,
        focus_pending: false,
        instructions: ""@,
        last_action: 0,
        history: seq![initial],
        history_idx: 0,
        running: None,
        recording: false,
        transcribing: false,
        error: None,
    }
}

/// What a key asks to be done outside the popup.
#[derive(Debug)]
pub enum Effect {
    Nothing,
    /// Run an action over a payload.
    Run { index: usize, payload: String },
    StartRecording,
    /// End the capture and transcribe it.
    StopRecording,
    /// Decide for this text, and close.
    Accept(String),
    /// Decide for the original, and close.
    Cancel,
}

/// The model of an [`Effect`].
pub enum EffectView {
    Nothing,
    Run { index: int, payload: Seq<char> },
    StartRecording,
    StopRecording,
    Accept(Seq<char>),
    Cancel,
}

impl View for Effect {
    type V = EffectView;

    open spec fn view(&self) -> EffectView {
        match self {
            Effect::Nothing => EffectView::Nothing,
            Effect::Run { index, payload } => EffectView::Run {
                index: *index as int,
                payload: payload@,
            },
            Effect::StartRecording => EffectView::StartRecording,
            Effect::StopRecording => EffectView::StopRecording,
            Effect::Accept(t) => EffectView::Accept(t@),
            Effect::Cancel => EffectView::Cancel,
        }
    }
}

// ---------------------------------------------------------------------------
// Payloads
// ---------------------------------------------------------------------------

/// What opens the block of instructions. It carries its own rule, because models
/// echo an instruction back as content.
pub const INSTRUCTIONS_HEAD: &'static str = "[operator instructions]\nApply these instructions to the text below. Never repeat these instructions in your output. Output only the final text, nothing else.\n";

/// What closes the block of instructions.
pub const INSTRUCTIONS_TAIL: &'static str = "\n[/operator instructions]\n\n";

/// A transcript and the operator's steering as one payload.
pub open spec fn payload_of(transcript: Seq<char>, instructions: Seq<char>) -> Seq<char> {
    if text::blank(instructions) {
        transcript
    } else {
        INSTRUCTIONS_HEAD@ + text::trimmed(instructions) + INSTRUCTIONS_TAIL@ + transcript
    }
}

/// A transcript and the operator's steering as one payload for the stdin of an
/// action.
///
/// The instructions stand in a delimited block rather than in a template: an
/// action is an arbitrary command, so there is no template to weave them into.
pub fn compose_payload(transcript: &str, instructions: &str) -> (r: String)
    ensures
        r@ == payload_of(transcript@, instructions@),
{
    if text::is_blank(instructions) {
        return transcript.to_string();
    }
    let mut r = INSTRUCTIONS_HEAD.to_string();
    r.append(text::trim(instructions).as_str());
    r.append(INSTRUCTIONS_TAIL);
    r.append(transcript);
    r
}

/// Whatever the operator asks for, the transcript reaches the action whole, at
/// the end of the payload.
pub proof fn law_the_payload_ends_in_the_transcript(
    transcript: Seq<char>,
    instructions: Seq<char>,
)
    ensures
        ({
            let p = payload_of(transcript, instructions);
            p.len() >= transcript.len() && p.skip(p.len() - transcript.len()) == transcript
        }),
{
    let p = payload_of(transcript, instructions);
    assert(p.skip(p.len() - transcript.len()) =~= transcript);
}

// ---------------------------------------------------------------------------
// Rounds
// ---------------------------------------------------------------------------

/// An action starts, unless one is running or there is no such action.
pub open spec fn after_start(v: ReviewView, index: int) -> (ReviewView, EffectView) {
    if v.running is Some || index >= v.actions.len() {
        (v, EffectView::Nothing)
    } else {
        (
            ReviewView { error: None, last_action: index, running: Some(index as usize), ..v },
            EffectView::Run { index, payload: payload_of(v.text, v.instructions) },
        )
    }
}

/// What a worker has to say.
#[derive(Debug)]
pub enum Report<T> {
    /// Nothing yet.
    Pending,
    /// Nothing, ever.
    Dead,
    Done(T),
}

/// An action ended. One that failed leaves the text as it is and says why; a
/// round that succeeded is shown, and replaces the rounds behind the one that
/// was shown.
pub open spec fn after_run(v: ReviewView, report: Report<OutcomeView>) -> ReviewView {
    if v.running is None {
        v
    } else {
        match report {
            Report::Pending => v,
            Report::Dead => ReviewView {
                running: None,
                error: Some("action worker died without a result"@),
                ..v
            },
            Report::Done(out) => match out.failure {
                Some(f) => ReviewView {
                    running: None,
                    error: Some(crate::action::failure_message(f)),
                    ..v
                },
                None => ReviewView {
                    running: None,
                    text: out.text,
                    history: v.history.take(v.history_idx + 1).push(out.text),
                    history_idx: v.history_idx + 1,
                    ..v
                },
            },
        }
    }
}

/// A transcription ended. What was said goes behind the instructions.
pub open spec fn after_transcription(v: ReviewView, report: Report<Seq<char>>) -> ReviewView {
    if !v.transcribing {
        v
    } else {
        match report {
            Report::Pending => v,
            Report::Dead => ReviewView {
                transcribing: false,
                error: Some("voice transcription worker died"@),
                ..v
            },
            Report::Done(said) => if said.len() == 0 {
                ReviewView {
                    transcribing: false,
                    error: Some("voice transcription produced nothing — try again"@),
                    ..v
                }
            } else if text::blank(v.instructions) {
                ReviewView { transcribing: false, instructions: said, ..v }
            } else {
                ReviewView {
                    transcribing: false,
                    instructions: v.instructions + seq![' '] + said,
                    ..v
                }
            },
        }
    }
}

/// The round `delta` further on is shown, where there is one.
pub open spec fn after_step(v: ReviewView, delta: int) -> ReviewView {
    let target = v.history_idx + delta;
    if 0 <= target < v.history.len() {
        ReviewView { history_idx: target, text: v.history[target], ..v }
    } else {
        v
    }
}

/// The report of an action, in the model.
pub open spec fn run_report(r: Report<ActionOutcome>) -> Report<OutcomeView> {
    match r {
        Report::Pending => Report::Pending,
        Report::Dead => Report::Dead,
        Report::Done(out) => Report::Done(out@),
    }
}

/// The report of a transcription, in the model.
pub open spec fn text_report(r: Report<String>) -> Report<Seq<char>> {
    match r {
        Report::Pending => Report::Pending,
        Report::Dead => Report::Dead,
        Report::Done(t) => Report::Done(t@),
    }
}

impl Review {
    /// Open the popup over a transcript.
    pub fn new(initial: &str, actions: Vec<Action>) -> (r: Self)
        ensures
            r@ == opened(initial@, crate::action::action_views(actions@)),
            consistent(r@),
    {
        let r = Review {
            text: initial.to_string(),
            original: initial.to_string(),
            actions,
            selected: 0,
            focus: Focus::List,
            focus_pending: false,
            instructions: "".to_string(),
            last_action: 0,
            history: vec![initial.to_string()],
            history_idx: 0,
            running: None,
            recording: false,
            transcribing: false,
            error: None,
        };
        assert(text::texts(r.history@) =~= seq![initial@]);
        r
    }

    /// The payload of an action that starts now.
    pub fn payload(&self) -> (r: String)
        ensures
            r@ == payload_of(self@.text, self@.instructions),
    {
        compose_payload(self.text.as_str(), self.instructions.as_str())
    }

    /// Start an action, unless one is running or there is no such action.
    pub fn start_action(&mut self, index: usize) -> (r: Effect)
        requires
            consistent(old(self)@),
        ensures
            (final(self)@, r@) == after_start(old(self)@, index as int),
            consistent(final(self)@),
    {
        if self.running.is_some() || index >= self.actions.len() {
            return Effect::Nothing;
        }
        let payload = self.payload();
        self.error = None;
        self.last_action = index;
        self.running = Some(index);
        Effect::Run { index, payload }
    }

    /// Take up what the worker of an action reports.
    pub fn poll_running(&mut self, report: Report<ActionOutcome>)
        requires
            consistent(old(self)@),
        ensures
            final(self)@ == after_run(old(self)@, run_report(report)),
            consistent(final(self)@),
    {
        if self.running.is_none() {
            return;
        }
        match report {
            Report::Pending => {},
            Report::Dead => {
                self.running = None;
                self.error = Some("action worker died without a result".to_string());
            },
            Report::Done(out) => {
                self.running = None;
                match out.failure {
                    Some(f) => {
                        self.error = Some(f.message());
                    },
                    None => {
                        let ghost rounds = text::texts(self.history@);
                        assert(self.history_idx < self.history.len());
                        self.history.truncate(self.history_idx + 1);
                        self.history.push(out.text.clone());
                        self.text = out.text;
                        self.history_idx = self.history_idx + 1;
                        assert(text::texts(self.history@) =~= rounds.take(
                            old(self)@.history_idx + 1,
                        ).push(out@.text));
                    },
                }
            },
        }
    }

    /// Take up what the worker of a transcription reports.
    pub fn poll_transcription(&mut self, report: Report<String>)
        requires
            consistent(old(self)@),
        ensures
            final(self)@ == after_transcription(old(self)@, text_report(report)),
            consistent(final(self)@),
    {
        if !self.transcribing {
            return;
        }
        match report {
            Report::Pending => {},
            Report::Dead => {
                self.transcribing = false;
                self.error = Some("voice transcription worker died".to_string());
            },
            Report::Done(said) => {
                self.transcribing = false;
                if said.as_str().is_empty() {
                    self.error = Some(
                        "voice transcription produced nothing — try again".to_string(),
                    );
                } else if text::is_blank(self.instructions.as_str()) {
                    self.instructions = said;
                } else {
                    self.instructions.push(' ');
                    assert(self.instructions@ =~= old(self)@.instructions + seq![' ']);
                    self.instructions.append(said.as_str());
                }
            },
        }
    }

    /// Step through the rounds: -1 is older, 1 is newer.
    pub fn history_step(&mut self, delta: i32)
        requires
            consistent(old(self)@),
        ensures
            final(self)@ == after_step(old(self)@, delta as int),
            consistent(final(self)@),
    {
        let target: i128 = self.history_idx as i128 + delta as i128;
        let count: usize = self.history.len();
        assert(text::texts(self.history@).len() == count);
        if target < 0 || target >= count as i128 {
            return;
        }
        self.history_idx = target as usize;
        assert(text::texts(self.history@)[target as int] == self.history@[target as int]@);
        self.text = self.history[self.history_idx].clone();
    }
}

// ---------------------------------------------------------------------------
// Keys
// ---------------------------------------------------------------------------

/// What was pressed since the popup was last drawn.
#[derive(Clone, Copy, Debug)]
pub struct Keys {
    pub enter: bool,
    pub ctrl_enter: bool,
    pub ctrl_i: bool,
    pub escape: bool,
    /// The window was asked to close.
    pub close_requested: bool,
    pub tab: bool,
    pub shift_tab: bool,
    pub alt_left: bool,
    pub alt_right: bool,
    pub up: bool,
    pub down: bool,
    pub space: bool,
    /// `e` or F2.
    pub edit: bool,
    /// The digits, each at its own place.
    pub digits: [bool; 10],
}

/// What a step did: whether the keys are used up, and what is to be done.
#[derive(Debug)]
pub struct Step {
    pub done: bool,
    pub effect: Effect,
}

/// The popup after a step, whether the keys are used up, and what is to be done.
pub struct StepView {
    pub state: ReviewView,
    pub done: bool,
    pub effect: EffectView,
}

/// The stop after `f` in reading order.
pub open spec fn next_focus(f: Focus) -> Focus {
    match f {
        Focus::List => Focus::Text,
        Focus::Text => Focus::Instructions,
        Focus::Instructions => Focus::List,
    }
}

/// The stop before `f` in reading order.
pub open spec fn previous_focus(f: Focus) -> Focus {
    match f {
        Focus::List => Focus::Instructions,
        Focus::Instructions => Focus::Text,
        Focus::Text => Focus::List,
    }
}

/// The keyboard moves.
pub open spec fn focused(v: ReviewView, f: Focus) -> ReviewView {
    ReviewView { focus: f, focus_pending: true, ..v }
}

/// The capture ends, and its transcription starts.
pub open spec fn stopped(v: ReviewView) -> ReviewView {
    ReviewView { recording: false, transcribing: true, ..v }
}

/// The keyboard moves as the focus keys say.
pub open spec fn cycled(v: ReviewView, k: Keys) -> ReviewView {
    let w = if k.tab {
        focused(v, next_focus(v.focus))
    } else {
        v
    };
    if k.shift_tab {
        focused(w, previous_focus(w.focus))
    } else {
        w
    }
}

/// The rounds are stepped through as the keys say.
pub open spec fn paged(v: ReviewView, k: Keys) -> ReviewView {
    let w = if k.alt_left {
        after_step(v, -1)
    } else {
        v
    };
    if k.alt_right {
        after_step(w, 1)
    } else {
        w
    }
}

/// The keys that mean the same wherever the keyboard lives.
pub open spec fn global_step(v: ReviewView, k: Keys) -> StepView {
    if k.ctrl_enter {
        StepView { state: v, done: true, effect: EffectView::Accept(v.text) }
    } else if k.enter && v.focus == Focus::Instructions {
        let (state, effect) = after_start(v, v.last_action);
        StepView { state, done: true, effect }
    } else if k.ctrl_i && v.recording {
        StepView { state: stopped(v), done: true, effect: EffectView::StopRecording }
    } else if k.ctrl_i && v.focus == Focus::Instructions {
        let effect = if v.transcribing {
            EffectView::Nothing
        } else {
            EffectView::StartRecording
        };
        StepView { state: v, done: true, effect }
    } else if k.escape && v.recording {
        StepView { state: stopped(v), done: true, effect: EffectView::StopRecording }
    } else if k.close_requested {
        StepView { state: v, done: true, effect: EffectView::Cancel }
    } else {
        StepView { state: paged(cycled(v, k), k), done: false, effect: EffectView::Nothing }
    }
}

/// The first action, from `i` on, with the hotkey `c`.
pub open spec fn keyed_from(actions: Seq<ActionView>, c: char, i: int) -> Option<int>
    decreases actions.len() - i,
{
    if i < 0 || i >= actions.len() {
        None
    } else if actions[i].key == Some(c) {
        Some(i)
    } else {
        keyed_from(actions, c, i + 1)
    }
}

/// The action of the lowest digit, from `d` on, that was pressed and is a hotkey.
pub open spec fn hotkey_from(actions: Seq<ActionView>, digits: Seq<bool>, d: int) -> Option<int>
    decreases 10 - d,
{
    if d > 9 {
        None
    } else if digits[d] && keyed_from(actions, text::digit_char(d), 0) is Some {
        keyed_from(actions, text::digit_char(d), 0)
    } else {
        hotkey_from(actions, digits, d + 1)
    }
}

/// The highlight moves as the keys say.
pub open spec fn highlighted(v: ReviewView, k: Keys) -> int {
    let up = if k.up && v.selected > 0 {
        v.selected - 1
    } else {
        v.selected
    };
    if k.down && up + 1 < v.actions.len() {
        up + 1
    } else {
        up
    }
}

/// The keys that work while the keyboard lives in the list.
pub open spec fn list_step(v: ReviewView, k: Keys) -> StepView {
    if let Some(i) = hotkey_from(v.actions, k.digits@, 1) {
        let (state, effect) = after_start(v, i);
        StepView { state, done: true, effect }
    } else if k.digits@[0] {
        StepView { state: v, done: true, effect: EffectView::Accept(v.text) }
    } else if k.escape {
        StepView { state: v, done: true, effect: EffectView::Cancel }
    } else if k.enter {
        StepView { state: v, done: true, effect: EffectView::Accept(v.text) }
    } else if k.space && v.actions.len() > 0 {
        let (state, effect) = after_start(v, v.selected);
        StepView { state, done: true, effect }
    } else {
        let w = if k.edit {
            focused(v, Focus::Text)
        } else {
            v
        };
        let selected = if v.actions.len() > 0 {
            highlighted(v, k)
        } else {
            v.selected
        };
        StepView {
            state: ReviewView { selected, ..w },
            done: false,
            effect: EffectView::Nothing,
        }
    }
}

/// What is drawn next, given what the workers have to say: the keys that mean the
/// same everywhere come first, then the workers, then the keys of the list.
pub open spec fn frame_step(
    v: ReviewView,
    k: Keys,
    run: Report<OutcomeView>,
    said: Report<Seq<char>>,
) -> StepView {
    let first = global_step(v, k);
    if first.done {
        first
    } else {
        let w = after_transcription(after_run(first.state, run), said);
        if w.focus == Focus::List {
            list_step(w, k)
        } else {
            StepView { state: w, done: false, effect: EffectView::Nothing }
        }
    }
}

/// A capture was to be started, and may have failed to.
pub open spec fn after_capture(v: ReviewView, fault: Option<Seq<char>>) -> ReviewView {
    match fault {
        None => ReviewView { error: None, recording: true, ..v },
        Some(e) => ReviewView { error: Some("voice capture failed to start: "@ + e), ..v },
    }
}

/// A box is left.
pub open spec fn left(v: ReviewView, escape: bool) -> ReviewView {
    if escape && v.focus != Focus::List {
        focused(v, Focus::List)
    } else {
        v
    }
}

/// A box is clicked.
pub open spec fn clicked(v: ReviewView, f: Focus) -> ReviewView {
    if v.focus != f {
        focused(v, f)
    } else {
        v
    }
}

/// The keyboard has moved to where it was to, if it was to.
pub open spec fn settled(v: ReviewView) -> (ReviewView, Option<Focus>) {
    (
        ReviewView { focus_pending: false, ..v },
        if v.focus_pending {
            Some(v.focus)
        } else {
            None
        },
    )
}

/// The instructions are cleared.
pub open spec fn cleared(v: ReviewView) -> ReviewView {
    ReviewView { instructions: ""@, ..v }
}

/// The row of an action is clicked: it is highlighted, and starts.
pub open spec fn picked(v: ReviewView, index: int) -> (ReviewView, EffectView) {
    after_start(ReviewView { selected: index, ..v }, index)
}

/// A state and a step, in the model.
pub open spec fn stepped(state: ReviewView, step: Step) -> StepView {
    StepView { state, done: step.done, effect: step.effect@ }
}

impl Focus {
    /// The stop after this one in reading order.
    pub fn next(self) -> (r: Focus)
        ensures
            r == next_focus(self),
    {
        match self {
            Focus::List => Focus::Text,
            Focus::Text => Focus::Instructions,
            Focus::Instructions => Focus::List,
        }
    }

    /// The stop before this one in reading order.
    pub fn previous(self) -> (r: Focus)
        ensures
            r == previous_focus(self),
    {
        match self {
            Focus::List => Focus::Instructions,
            Focus::Instructions => Focus::Text,
            Focus::Text => Focus::List,
        }
    }
}

impl Review {
    /// Move the keyboard.
    fn focus_on(&mut self, f: Focus)
        ensures
            final(self)@ == focused(old(self)@, f),
    {
        self.focus = f;
        self.focus_pending = true;
    }

    /// Use the keys that mean the same wherever the keyboard lives. They are used
    /// up here, so that no text box ever sees them.
    pub fn handle_global_keys(&mut self, k: &Keys) -> (r: Step)
        requires
            consistent(old(self)@),
        ensures
            stepped(final(self)@, r) == global_step(old(self)@, *k),
            consistent(final(self)@),
    {
        if k.ctrl_enter {
            return Step { done: true, effect: Effect::Accept(self.text.clone()) };
        }
        if k.enter && self.focus == Focus::Instructions {
            let index: usize = self.last_action;
            let effect = self.start_action(index);
            return Step { done: true, effect };
        }
        if k.ctrl_i && self.recording {
            self.recording = false;
            self.transcribing = true;
            return Step { done: true, effect: Effect::StopRecording };
        }
        if k.ctrl_i && self.focus == Focus::Instructions {
            if self.transcribing {
                return Step { done: true, effect: Effect::Nothing };
            }
            return Step { done: true, effect: Effect::StartRecording };
        }
        if k.escape && self.recording {
            self.recording = false;
            self.transcribing = true;
            return Step { done: true, effect: Effect::StopRecording };
        }
        if k.close_requested {
            return Step { done: true, effect: Effect::Cancel };
        }
        if k.tab {
            let f = self.focus.next();
            self.focus_on(f);
        }
        if k.shift_tab {
            let f = self.focus.previous();
            self.focus_on(f);
        }
        if k.alt_left {
            self.history_step(-1);
        }
        if k.alt_right {
            self.history_step(1);
        }
        Step { done: false, effect: Effect::Nothing }
    }

    /// The action with the hotkey `c`.
    pub fn keyed(&self, c: char) -> (r: Option<usize>)
        ensures
            match r {
                Some(i) => i < self.actions@.len() && keyed_from(self@.actions, c, 0) == Some(
                    i as int,
                ),
                None => keyed_from(self@.actions, c, 0) is None,
            },
    {
        let ghost views = self@.actions;
        let mut i: usize = 0;
        while i < self.actions.len()
            invariant
                i <= self.actions@.len(),
                views == crate::action::action_views(self.actions@),
                keyed_from(views, c, 0) == keyed_from(views, c, i as int),
            decreases self.actions@.len() - i,
        {
            assert(views[i as int] == self.actions@[i as int]@);
            match self.actions[i].key {
                Some(k) => {
                    if k == c {
                        return Some(i);
                    }
                },
                None => {},
            }
            i = i + 1;
        }
        None
    }

    /// The action of the lowest digit that was pressed and is a hotkey.
    fn hotkey(&self, k: &Keys) -> (r: Option<usize>)
        ensures
            match r {
                Some(i) => i < self.actions@.len() && hotkey_from(self@.actions, k.digits@, 1)
                    == Some(i as int),
                None => hotkey_from(self@.actions, k.digits@, 1) is None,
            },
    {
        let ghost views = self@.actions;
        let mut d: usize = 1;
        while d < 10
            invariant
                1 <= d <= 10,
                views == self@.actions,
                hotkey_from(views, k.digits@, 1) == hotkey_from(views, k.digits@, d as int),
            decreases 10 - d,
        {
            if k.digits[d] {
                match self.keyed(text::digit(d as u128)) {
                    Some(i) => return Some(i),
                    None => {},
                }
            }
            d = d + 1;
        }
        None
    }

    /// Use the keys that work while the keyboard lives in the list.
    pub fn handle_list_keys(&mut self, k: &Keys) -> (r: Step)
        requires
            consistent(old(self)@),
        ensures
            stepped(final(self)@, r) == list_step(old(self)@, *k),
            consistent(final(self)@),
    {
        match self.hotkey(k) {
            Some(i) => {
                let effect = self.start_action(i);
                return Step { done: true, effect };
            },
            None => {},
        }
        if k.digits[0] {
            return Step { done: true, effect: Effect::Accept(self.text.clone()) };
        }
        if k.escape {
            return Step { done: true, effect: Effect::Cancel };
        }
        if k.enter {
            return Step { done: true, effect: Effect::Accept(self.text.clone()) };
        }
        let count: usize = self.actions.len();
        assert(self@.actions.len() == count);
        if k.space && count > 0 {
            let index: usize = self.selected;
            let effect = self.start_action(index);
            return Step { done: true, effect };
        }
        if k.edit {
            self.focus_on(Focus::Text);
        }
        if count > 0 {
            if k.up && self.selected > 0 {
                self.selected = self.selected - 1;
            }
            if k.down && self.selected < count - 1 {
                self.selected = self.selected + 1;
            }
        }
        Step { done: false, effect: Effect::Nothing }
    }

    /// Take up the keys and what the workers report, before the popup is drawn.
    /// The workers are not asked where a key ends the frame, so that no report
    /// is lost.
    pub fn frame<F: FnOnce() -> Report<ActionOutcome>, G: FnOnce() -> Report<String>>(
        &mut self,
        k: &Keys,
        run: F,
        said: G,
    ) -> (r: Step)
        requires
            consistent(old(self)@),
            run.requires(()),
            said.requires(()),
        ensures
            consistent(final(self)@),
            if global_step(old(self)@, *k).done {
                stepped(final(self)@, r) == global_step(old(self)@, *k)
            } else {
                exists|a: Report<ActionOutcome>, b: Report<String>|
                    {
                        &&& #[trigger] run.ensures((), a)
                        &&& #[trigger] said.ensures((), b)
                        &&& stepped(final(self)@, r) == frame_step(
                            old(self)@,
                            *k,
                            run_report(a),
                            text_report(b),
                        )
                    }
            },
    {
        let first = self.handle_global_keys(k);
        if first.done {
            return first;
        }
        let a = run();
        let ghost ran = a;
        self.poll_running(a);
        let b = said();
        let ghost heard = b;
        self.poll_transcription(b);
        assert(run.ensures((), ran));
        assert(said.ensures((), heard));
        if self.focus == Focus::List {
            return self.handle_list_keys(k);
        }
        first
    }

    /// A capture was to be started.
    pub fn recording_started(&mut self, started: Result<(), String>)
        requires
            consistent(old(self)@),
            !old(self)@.transcribing,
        ensures
            final(self)@ == after_capture(
                old(self)@,
                match started {
                    Ok(_) => None,
                    Err(e) => Some(e@),
                },
            ),
            consistent(final(self)@),
    {
        match started {
            Ok(_) => {
                self.error = None;
                self.recording = true;
            },
            Err(e) => {
                let mut m = "voice capture failed to start: ".to_string();
                m.append(e.as_str());
                self.error = Some(m);
            },
        }
    }

    /// Esc inside a box leaves the box rather than cancelling: losing an edit to
    /// a reflex would be worse than one more keystroke.
    pub fn leave_box(&mut self, escape: bool)
        requires
            consistent(old(self)@),
        ensures
            final(self)@ == left(old(self)@, escape),
            consistent(final(self)@),
    {
        if escape && self.focus != Focus::List {
            self.focus_on(Focus::List);
        }
    }

    /// A box was clicked, which is the same as moving the keyboard there.
    pub fn click_box(&mut self, f: Focus)
        requires
            consistent(old(self)@),
        ensures
            final(self)@ == clicked(old(self)@, f),
            consistent(final(self)@),
    {
        if self.focus != f {
            self.focus_on(f);
        }
    }

    /// Where the keyboard has yet to move to. It is asked for once.
    pub fn take_focus(&mut self) -> (r: Option<Focus>)
        requires
            consistent(old(self)@),
        ensures
            (final(self)@, r) == settled(old(self)@),
            consistent(final(self)@),
    {
        if self.focus_pending {
            self.focus_pending = false;
            return Some(self.focus);
        }
        None
    }

    /// The instructions were cleared.
    pub fn clear_instructions(&mut self)
        requires
            consistent(old(self)@),
        ensures
            final(self)@ == cleared(old(self)@),
            consistent(final(self)@),
    {
        self.instructions = "".to_string();
    }

    /// The row that accepts the text was clicked.
    pub fn click_accept(&self) -> (r: Effect)
        ensures
            r@ == EffectView::Accept(self@.text),
    {
        Effect::Accept(self.text.clone())
    }

    /// The row of an action was clicked.
    pub fn click_action(&mut self, index: usize) -> (r: Effect)
        requires
            consistent(old(self)@),
            index < old(self)@.actions.len(),
        ensures
            (final(self)@, r@) == picked(old(self)@, index as int),
            consistent(final(self)@),
    {
        self.selected = index;
        self.start_action(index)
    }
}

// ---------------------------------------------------------------------------
// What is shown
// ---------------------------------------------------------------------------

/// The width of the window.
pub const WINDOW_W: u32 = 760;

/// The height of everything that is not an action row.
pub const CHROME_H: u32 = 252;

/// The height of an action row.
pub const ROW_H: u32 = 21;

/// The height of the heading above the rows.
pub const HEADING_H: u32 = 28;

/// The smallest window.
pub const MIN_W: u32 = 420;

/// The lowest window.
pub const MIN_H: u32 = 380;

/// The highest window. Rows past it are scrolled to.
pub const MAX_H: u32 = 640;

/// The height that fits this many actions.
pub open spec fn fitting_height(action_count: int) -> int {
    let heading: int = if action_count == 0 {
        0
    } else {
        HEADING_H as int
    };
    let h = CHROME_H + heading + action_count * ROW_H;
    if h < MIN_H {
        MIN_H as int
    } else if h > MAX_H {
        MAX_H as int
    } else {
        h
    }
}

/// The height of a window with this many actions: it grows to fit them, so that
/// neither rows nor the legend are clipped.
pub fn window_height(action_count: usize) -> (r: u32)
    ensures
        r == fitting_height(action_count as int),
{
    if action_count == 0 {
        return MIN_H;
    }
    if action_count > 100 {
        return MAX_H;
    }
    let h: u32 = CHROME_H + HEADING_H + action_count as u32 * ROW_H;
    if h < MIN_H {
        MIN_H
    } else if h > MAX_H {
        MAX_H
    } else {
        h
    }
}

/// The keys that work here. None is advertised that would do nothing.
pub open spec fn legend(v: ReviewView) -> Seq<char> {
    if v.focus != Focus::List {
        "Enter run   ·   Ctrl+I speak   ·   Ctrl+Enter paste   ·   Esc leave the box   ·   Tab next box   ·   Alt+arrow rounds"@
    } else if v.actions.len() == 0 {
        "Enter accept   ·   0 accept now   ·   e edit   ·   Esc cancel (raw)"@
    } else {
        "Enter accept   ·   0 accept now   ·   1-9 run action, result shows here   ·   ↑↓ select · Space run   ·   Tab boxes   ·   Alt+arrow rounds   ·   e edit   ·   Esc cancel (raw)"@
    }
}

/// How a status is to be coloured.
#[derive(Clone, Copy, PartialEq, Eq, Debug, Structural)]
pub enum Tone {
    Busy,
    Listening,
    Changed,
}

/// What the popup is doing, in the order in which it matters.
pub open spec fn status_of(v: ReviewView) -> Option<(Tone, Seq<char>)> {
    if v.running is Some && v.running->0 < v.actions.len() {
        Some((Tone::Busy, "running: "@ + v.actions[v.running->0 as int].label + " ..."@))
    } else if v.recording {
        Some((Tone::Listening, "● listening — Ctrl+I to stop"@))
    } else if v.transcribing {
        Some((Tone::Busy, "transcribing…"@))
    } else if v.focus != Focus::List {
        Some((Tone::Busy, "editing"@))
    } else if v.text != v.original {
        Some((Tone::Changed, "edited by agent"@))
    } else {
        None
    }
}

/// The round that is shown, where there is more than one.
pub open spec fn round_of(v: ReviewView) -> Option<Seq<char>> {
    if v.history.len() > 1 {
        Some(
            "round "@ + text::decimal((v.history_idx + 1) as nat) + "/"@ + text::decimal(
                v.history.len(),
            ) + "   Alt+arrow steps"@,
        )
    } else {
        None
    }
}

/// The row of an action.
pub open spec fn row_of(a: ActionView) -> Seq<char> {
    let digit = match a.key {
        Some(c) => seq![c],
        None => seq![' '],
    };
    "  "@ + digit + "   "@ + a.label
}

impl Review {
    /// The keys that work here.
    pub fn legend_text(&self) -> (r: String)
        ensures
            r@ == legend(self@),
    {
        assert(self@.actions.len() == self.actions@.len());
        if self.focus != Focus::List {
            "Enter run   ·   Ctrl+I speak   ·   Ctrl+Enter paste   ·   Esc leave the box   ·   Tab next box   ·   Alt+arrow rounds".to_string()
        } else if self.actions.len() == 0 {
            "Enter accept   ·   0 accept now   ·   e edit   ·   Esc cancel (raw)".to_string()
        } else {
            "Enter accept   ·   0 accept now   ·   1-9 run action, result shows here   ·   ↑↓ select · Space run   ·   Tab boxes   ·   Alt+arrow rounds   ·   e edit   ·   Esc cancel (raw)".to_string()
        }
    }

    /// What the popup is doing.
    pub fn status(&self) -> (r: Option<(Tone, String)>)
        ensures
            match r {
                Some((tone, t)) => status_of(self@) == Some((tone, t@)),
                None => status_of(self@) is None,
            },
    {
        match self.running {
            Some(i) => {
                if i < self.actions.len() {
                    assert(self@.actions[i as int] == self.actions@[i as int]@);
                    let mut t = "running: ".to_string();
                    t.append(self.actions[i].label.as_str());
                    t.append(" ...");
                    return Some((Tone::Busy, t));
                }
            },
            None => {},
        }
        if self.recording {
            return Some((Tone::Listening, "● listening — Ctrl+I to stop".to_string()));
        }
        if self.transcribing {
            return Some((Tone::Busy, "transcribing…".to_string()));
        }
        if self.focus != Focus::List {
            return Some((Tone::Busy, "editing".to_string()));
        }
        if !text::same(self.text.as_str(), self.original.as_str()) {
            return Some((Tone::Changed, "edited by agent".to_string()));
        }
        None
    }

    /// The round that is shown, where there is more than one.
    pub fn round(&self) -> (r: Option<String>)
        requires
            consistent(self@),
        ensures
            text::opt_text(r) == round_of(self@),
    {
        let n: usize = self.history.len();
        assert(self@.history.len() == n);
        if n > 1 {
            let mut t = "round ".to_string();
            t.append(text::to_decimal(self.history_idx as u128 + 1).as_str());
            t.append("/");
            t.append(text::to_decimal(n as u128).as_str());
            t.append("   Alt+arrow steps");
            return Some(t);
        }
        None
    }

    /// The failure that is shown, where there is one.
    pub fn banner(&self) -> (r: Option<String>)
        ensures
            text::opt_text(r) == (match self@.error {
                Some(e) => Some("action failed: "@ + e),
                None => None,
            }),
    {
        match &self.error {
            Some(e) => {
                let mut t = "action failed: ".to_string();
                t.append(e.as_str());
                Some(t)
            },
            None => None,
        }
    }

    /// The row of an action, and whether it is highlighted.
    pub fn row(&self, index: usize) -> (r: (String, bool))
        requires
            index < self@.actions.len(),
        ensures
            r.0@ == row_of(self@.actions[index as int]),
            r.1 == (self@.focus == Focus::List && self@.selected == index),
    {
        assert(self@.actions[index as int] == self.actions@[index as int]@);
        let a = &self.actions[index];
        let mut t = "  ".to_string();
        let ghost before = t@;
        let c: char = match a.key {
            Some(c) => c,
            None => ' ',
        };
        t.push(c);
        assert(t@ =~= before + seq![c]);
        t.append("   ");
        t.append(a.label.as_str());
        (t, self.focus == Focus::List && self.selected == index)
    }
}

// ---------------------------------------------------------------------------
// What the popup can be relied on for
// ---------------------------------------------------------------------------

/// The original is always within reach: stepping back from the round that is
/// shown to the first one brings it back.
pub proof fn law_the_original_is_within_reach(v: ReviewView)
    requires
        consistent(v),
    ensures
        after_step(v, -v.history_idx).text == v.original,
{
}

/// A step back undoes a step forward, and the other way round: the round that
/// was shown is shown again, and nothing else has changed.
pub proof fn law_a_step_back_undoes_a_step(v: ReviewView, delta: int)
    requires
        consistent(v),
        0 <= v.history_idx + delta < v.history.len(),
    ensures
        after_step(after_step(v, delta), -delta) == (ReviewView {
            text: v.history[v.history_idx],
            ..v
        }),
{
}

/// A round that succeeded is shown, and the round before it is one step back.
pub proof fn law_a_round_can_be_undone(v: ReviewView, out: OutcomeView)
    requires
        consistent(v),
        v.running is Some,
        out.failure is None,
    ensures
        ({
            let w = after_run(v, Report::Done(out));
            &&& consistent(w)
            &&& w.text == out.text
            &&& after_step(w, -1).text == v.history[v.history_idx]
        }),
{
    let w = after_run(v, Report::Done(out));
    assert(w.history[v.history_idx] == v.history[v.history_idx]);
    assert(w.history[0] == v.history[0]);
}

/// A failed action never touches the text, the instructions or the rounds, and
/// it always says why.
pub proof fn law_a_failed_action_changes_no_text(v: ReviewView, report: Report<OutcomeView>)
    requires
        v.running is Some,
        report is Dead || (report matches Report::Done(out) && out.failure is Some),
    ensures
        ({
            let w = after_run(v, report);
            &&& w.text == v.text
            &&& w.instructions == v.instructions
            &&& w.history == v.history
            &&& w.history_idx == v.history_idx
            &&& w.running is None
            &&& w.error is Some
        }),
{
}

/// One action runs at a time: while one does, none can be started.
pub proof fn law_one_action_at_a_time(v: ReviewView, index: int)
    requires
        v.running is Some,
    ensures
        after_start(v, index) == (v, EffectView::Nothing),
{
}

/// Only three keys commit, and what they commit is what the box holds: Ctrl+Enter
/// anywhere, Enter and `0` in the list.
pub proof fn law_only_three_keys_commit(v: ReviewView, k: Keys, t: Seq<char>)
    requires
        global_step(v, k).effect == EffectView::Accept(t) || v.focus == Focus::List && list_step(
            v,
            k,
        ).effect == EffectView::Accept(t),
    ensures
        t == v.text,
        k.ctrl_enter || v.focus == Focus::List && (k.enter || k.digits@[0]),
{
}

/// Nothing cancels but Esc in the list and closing the window. In a box, Esc
/// does not cancel.
pub proof fn law_escape_in_a_box_does_not_cancel(v: ReviewView, k: Keys)
    requires
        v.focus != Focus::List,
        !k.close_requested,
    ensures
        global_step(v, k).effect != EffectView::Cancel,
{
}

/// Esc in the list cancels, at any depth of rounds, unless a hotkey or `0` was
/// pressed with it.
pub proof fn law_escape_in_the_list_cancels(v: ReviewView, k: Keys)
    requires
        k.escape,
        forall|d: int| 0 <= d < 10 ==> !#[trigger] k.digits@[d],
    ensures
        list_step(v, k).effect == EffectView::Cancel,
{
    lemma_no_digit_no_hotkey(v.actions, k.digits@, 1);
}

proof fn lemma_no_digit_no_hotkey(actions: Seq<ActionView>, digits: Seq<bool>, d: int)
    requires
        0 <= d,
        forall|i: int| 0 <= i < 10 ==> !#[trigger] digits[i],
    ensures
        hotkey_from(actions, digits, d) is None,
    decreases 10 - d,
{
    if d <= 9 {
        lemma_no_digit_no_hotkey(actions, digits, d + 1);
    }
}

/// The stops form a cycle of three, and each direction undoes the other.
pub proof fn law_the_focus_cycle(f: Focus)
    ensures
        previous_focus(next_focus(f)) == f,
        next_focus(previous_focus(f)) == f,
        next_focus(next_focus(next_focus(f))) == f,
        next_focus(f) != f,
{
}

/// A hotkey runs the action that shows it, where hotkeys are distinct.
pub proof fn law_a_hotkey_runs_the_action_that_shows_it(
    v: ReviewView,
    k: Keys,
    d: int,
    index: int,
)
    requires
        v.running is None,
        1 <= d <= 9,
        0 <= index < v.actions.len(),
        v.actions[index].key == Some(text::digit_char(d)),
        forall|i: int, j: int|
            0 <= i < j < v.actions.len() && (#[trigger] v.actions[i]).key is Some
                ==> v.actions[i].key != (#[trigger] v.actions[j]).key,
        forall|i: int| 0 <= i < 10 ==> #[trigger] k.digits@[i] == (i == d),
    ensures
        list_step(v, k).effect == (EffectView::Run {
            index,
            payload: payload_of(v.text, v.instructions),
        }),
{
    lemma_keyed(v.actions, text::digit_char(d), index, 0);
    lemma_one_digit(v.actions, k.digits@, d, 1);
}

proof fn lemma_keyed(actions: Seq<ActionView>, c: char, index: int, i: int)
    requires
        0 <= i <= index < actions.len(),
        actions[index].key == Some(c),
        forall|a: int, b: int|
            0 <= a < b < actions.len() && (#[trigger] actions[a]).key is Some ==> actions[a].key
                != (#[trigger] actions[b]).key,
    ensures
        keyed_from(actions, c, i) == Some(index),
    decreases index - i,
{
    if i < index {
        lemma_keyed(actions, c, index, i + 1);
    }
}

proof fn lemma_one_digit(actions: Seq<ActionView>, digits: Seq<bool>, d: int, from: int)
    requires
        1 <= from <= d <= 9,
        forall|i: int| 0 <= i < 10 ==> #[trigger] digits[i] == (i == d),
        keyed_from(actions, text::digit_char(d), 0) is Some,
    ensures
        hotkey_from(actions, digits, from) == keyed_from(actions, text::digit_char(d), 0),
    decreases d - from,
{
    if from < d {
        lemma_one_digit(actions, digits, d, from + 1);
    }
}

/// A round that succeeded keeps every round up to the one that was shown, and is
/// the last one: nothing before it is lost, and nothing behind it is left.
pub proof fn law_a_round_keeps_the_rounds_before_it(v: ReviewView, out: OutcomeView)
    requires
        consistent(v),
        v.running is Some,
        out.failure is None,
    ensures
        ({
            let w = after_run(v, Report::Done(out));
            &&& w.history.len() == v.history_idx + 2
            &&& w.history_idx == v.history_idx + 1
            &&& w.history[w.history_idx] == out.text
            &&& w.text == out.text
            &&& forall|i: int| 0 <= i <= v.history_idx ==> #[trigger] w.history[i] == v.history[i]
            &&& w.running is None
            &&& w.error == v.error
            &&& w.instructions == v.instructions
            &&& w.selected == v.selected
            &&& w.last_action == v.last_action
            &&& w.focus == v.focus
            &&& w.original == v.original
            &&& w.actions == v.actions
            &&& w.recording == v.recording
            &&& w.transcribing == v.transcribing
        }),
{
}

/// The popup after rounds that each came to one of `results`, each run on what the
/// one before it produced.
pub open spec fn after_rounds(v: ReviewView, results: Seq<Seq<char>>) -> ReviewView
    decreases results.len(),
{
    if results.len() == 0 {
        v
    } else {
        let w = after_rounds(v, results.drop_last());
        after_run(
            after_start(w, w.last_action).0,
            Report::Done(OutcomeView { text: results.last(), failure: None }),
        )
    }
}

/// Every round is within reach: after any number of rounds, stepping back shows
/// the text of each of them in turn, then the original, and stepping forward
/// again shows them in order.
pub proof fn law_every_round_is_within_reach(
    initial: Seq<char>,
    actions: Seq<ActionView>,
    results: Seq<Seq<char>>,
    back: int,
)
    requires
        actions.len() > 0,
        0 <= back <= results.len(),
    ensures
        ({
            let n = results.len() as int;
            let v = after_rounds(opened(initial, actions), results);
            let w = after_step(v, -back);
            &&& v.history == seq![initial] + results
            &&& v.history_idx == n
            &&& w.text == if back == n {
                initial
            } else {
                results[n - back - 1]
            }
            &&& w.history == v.history
            &&& after_step(w, back).text == v.text
            &&& n > 0 ==> v.text == results.last()
        }),
{
    lemma_rounds(initial, actions, results);
}

proof fn lemma_rounds(initial: Seq<char>, actions: Seq<ActionView>, results: Seq<Seq<char>>)
    requires
        actions.len() > 0,
    ensures
        ({
            let v = after_rounds(opened(initial, actions), results);
            &&& v.history == seq![initial] + results
            &&& v.history_idx == results.len()
            &&& v.running is None
            &&& v.actions == actions
            &&& v.last_action == 0
            &&& v.text == v.history[v.history_idx]
            &&& results.len() > 0 ==> v.text == results.last()
        }),
    decreases results.len(),
{
    let v = after_rounds(opened(initial, actions), results);
    if results.len() == 0 {
        assert(v.history =~= seq![initial] + results);
    } else {
        lemma_rounds(initial, actions, results.drop_last());
        assert(v.history =~= seq![initial] + results);
    }
}

/// A failed run is shown in the words of its failure, and a worker that died is
/// told apart from one that failed; a run that is still going changes nothing.
pub proof fn law_a_run_is_reported_in_its_own_words(v: ReviewView, out: OutcomeView)
    requires
        v.running is Some,
    ensures
        after_run(v, Report::Pending) == v,
        out.failure matches Some(f) ==> after_run(v, Report::Done(out)).error == Some(
            crate::action::failure_message(f),
        ),
        out.failure is Some ==> after_run(v, Report::Done(out)) == (ReviewView {
            running: None,
            error: after_run(v, Report::Done(out)).error,
            ..v
        }),
        after_run(ReviewView { running: None, ..v }, Report::Done(out)) == (ReviewView {
            running: None,
            ..v
        }),
{
}

/// An action that can start does: it runs over what the box holds, with the
/// instructions, it becomes the action that Enter repeats, an old failure is no
/// longer shown, and nothing else changes. One that is not there does not start.
pub proof fn law_an_idle_popup_starts_what_is_asked_for(v: ReviewView, index: int)
    requires
        v.running is None,
        0 <= index <= usize::MAX,
        v.actions.len() <= usize::MAX,
    ensures
        index < v.actions.len() ==> after_start(v, index) == (
            ReviewView {
                error: None,
                last_action: index,
                running: Some(index as usize),
                ..v
            },
            EffectView::Run { index, payload: payload_of(v.text, v.instructions) },
        ),
        index >= v.actions.len() ==> after_start(v, index) == (v, EffectView::Nothing),
{
}

/// Without instructions an action gets the transcript and nothing else; with them,
/// it gets them before the transcript, without the whitespace around them, and
/// told apart from it.
pub proof fn law_instructions_stand_before_the_transcript(
    transcript: Seq<char>,
    before: Seq<char>,
    core: Seq<char>,
    behind: Seq<char>,
)
    requires
        forall|i: int| 0 <= i < before.len() ==> text::is_space(#[trigger] before[i]),
        forall|i: int| 0 <= i < behind.len() ==> text::is_space(#[trigger] behind[i]),
        core.len() > 0 ==> !text::is_space(core[0]) && !text::is_space(core.last()),
    ensures
        ({
            let p = payload_of(transcript, before + core + behind);
            if core.len() == 0 {
                p == transcript
            } else {
                exists|head: Seq<char>, tail: Seq<char>|
                    {
                        &&& p == #[trigger] (head + core + tail) + transcript
                        &&& text::holds(head, "[operator instructions]"@)
                        &&& text::holds(tail, "[/operator instructions]"@)
                    }
            }
        }),
{
    text::law_trimming_leaves_what_stands_between(before, core, behind);
    if core.len() > 0 {
        let head = INSTRUCTIONS_HEAD@;
        let tail = INSTRUCTIONS_TAIL@;
        reveal_strlit("[operator instructions]");
        reveal_strlit("[/operator instructions]");
        reveal_strlit("\n[/operator instructions]\n\n");
        reveal_strlit(
            "[operator instructions]\nApply these instructions to the text below. Never repeat these instructions in your output. Output only the final text, nothing else.\n",
        );
        assert(head.subrange(0, 23) =~= "[operator instructions]"@);
        assert(text::occurs_at(head, "[operator instructions]"@, 0));
        assert(tail.subrange(1, 25) =~= "[/operator instructions]"@);
        assert(text::occurs_at(tail, "[/operator instructions]"@, 1));
        assert(payload_of(transcript, before + core + behind) =~= (head + core + tail)
            + transcript);
    }
}

/// What was said goes behind the instructions that are there, with one space
/// between, and is the instructions where there were none. Nothing said, or a
/// worker that died, leaves them as they were and says so.
pub proof fn law_what_was_said_goes_behind_the_instructions(v: ReviewView, said: Seq<char>)
    requires
        v.transcribing,
    ensures
        ({
            let w = after_transcription(v, Report::Done(said));
            &&& !w.transcribing
            &&& said.len() > 0 && !text::blank(v.instructions) ==> w.instructions
                == v.instructions.push(' ') + said && w.error == v.error
            &&& said.len() > 0 && text::blank(v.instructions) ==> w.instructions == said && w.error
                == v.error
            &&& said.len() == 0 ==> w.instructions == v.instructions && w.error is Some
            &&& w.text == v.text && w.history == v.history && w.history_idx == v.history_idx
                && w.running == v.running && w.focus == v.focus && w.selected == v.selected
                && w.last_action == v.last_action
        }),
        ({
            let w = after_transcription(v, Report::Dead);
            !w.transcribing && w.error is Some && w.instructions == v.instructions && w.text
                == v.text && w.history == v.history
        }),
        after_transcription(v, Report::Pending) == v,
        after_transcription(ReviewView { transcribing: false, ..v }, Report::Done(said)) == (
        ReviewView { transcribing: false, ..v }),
{
    assert(v.instructions + seq![' '] + said =~= v.instructions.push(' ') + said);
}

/// The keys that commit do commit: Ctrl+Enter anywhere and whatever else was
/// pressed, `0` in the list unless a hotkey was pressed with it, and Enter in the
/// list unless Esc or a digit was. What is committed is what the box holds, and
/// the popup does not change.
pub proof fn law_the_committing_keys_commit(v: ReviewView, k: Keys)
    ensures
        k.ctrl_enter ==> global_step(v, k).effect == EffectView::Accept(v.text) && global_step(
            v,
            k,
        ).done && global_step(v, k).state == v,
        k.digits@[0] && (forall|d: int| 1 <= d < 10 ==> !#[trigger] k.digits@[d]) ==> list_step(
            v,
            k,
        ).effect == EffectView::Accept(v.text) && list_step(v, k).done && list_step(v, k).state
            == v,
        k.enter && !k.escape && (forall|d: int| 0 <= d < 10 ==> !#[trigger] k.digits@[d])
            ==> list_step(v, k).effect == EffectView::Accept(v.text) && list_step(v, k).done
            && list_step(v, k).state == v,
{
    if forall|d: int| 1 <= d < 10 ==> !#[trigger] k.digits@[d] {
        lemma_no_hotkey(v.actions, k.digits@, 1);
    }
}

proof fn lemma_no_hotkey(actions: Seq<ActionView>, digits: Seq<bool>, d: int)
    requires
        1 <= d,
        forall|i: int| 1 <= i < 10 ==> !#[trigger] digits[i],
    ensures
        hotkey_from(actions, digits, d) is None,
    decreases 10 - d,
{
    if d <= 9 {
        lemma_no_hotkey(actions, digits, d + 1);
    }
}

/// Closing the window cancels, unless something else was pressed that ends the
/// frame first.
pub proof fn law_closing_the_window_cancels(v: ReviewView, k: Keys)
    requires
        k.close_requested,
        !k.ctrl_enter,
        !(k.enter && v.focus == Focus::Instructions),
        !(k.ctrl_i && (v.recording || v.focus == Focus::Instructions)),
        !(k.escape && v.recording),
    ensures
        global_step(v, k).effect == EffectView::Cancel,
        global_step(v, k).done,
        global_step(v, k).state == v,
{
}

/// In the instructions box Enter runs the action that was run last, and Ctrl+I
/// starts a capture unless one is being transcribed. Where a capture is on, Ctrl+I
/// and Esc end it from anywhere, and its transcription starts.
pub proof fn law_keys_of_the_instructions_box(v: ReviewView, k: Keys)
    requires
        !k.ctrl_enter,
    ensures
        k.enter && v.focus == Focus::Instructions ==> (
        global_step(v, k).state,
        global_step(v, k).effect,
    ) == after_start(v, v.last_action) && global_step(v, k).done,
        !(k.enter && v.focus == Focus::Instructions) && v.recording && (k.ctrl_i || k.escape)
            ==> global_step(v, k) == (StepView {
            state: ReviewView { recording: false, transcribing: true, ..v },
            done: true,
            effect: EffectView::StopRecording,
        }),
        !k.enter && k.ctrl_i && !v.recording && v.focus == Focus::Instructions ==> global_step(v, k)
            == (StepView {
            state: v,
            done: true,
            effect: if v.transcribing {
                EffectView::Nothing
            } else {
                EffectView::StartRecording
            },
        }),
{
}

/// Space runs the action that is highlighted, and nothing where there is none.
pub proof fn law_space_runs_the_highlighted_action(v: ReviewView, k: Keys)
    requires
        k.space,
        !k.escape,
        !k.enter,
        forall|d: int| 0 <= d < 10 ==> !#[trigger] k.digits@[d],
    ensures
        v.actions.len() > 0 ==> (list_step(v, k).state, list_step(v, k).effect) == after_start(
            v,
            v.selected,
        ) && list_step(v, k).done,
        v.actions.len() == 0 ==> list_step(v, k).effect == EffectView::Nothing,
{
    lemma_no_digit_no_hotkey(v.actions, k.digits@, 1);
}

/// Keys that only move do only move: no text, round or action changes by them, and
/// nothing is done. The highlight goes up or down by one and stops at the ends;
/// the edit key moves the keyboard to the transcript; the focus keys move it one
/// stop; the round keys show the round before or behind.
pub proof fn law_moving_keys_only_move(v: ReviewView, k: Keys)
    requires
        consistent(v),
        v.selected >= 0,
        !k.ctrl_enter,
        !k.enter,
        !k.ctrl_i,
        !k.escape,
        !k.close_requested,
        !k.space,
        forall|d: int| 0 <= d < 10 ==> !#[trigger] k.digits@[d],
    ensures
        ({
            let w = list_step(v, k);
            &&& !w.done && w.effect == EffectView::Nothing
            &&& w.state == (ReviewView {
                selected: w.state.selected,
                focus: w.state.focus,
                focus_pending: w.state.focus_pending,
                ..v
            })
            &&& k.edit ==> w.state.focus == Focus::Text && w.state.focus_pending
            &&& !k.edit ==> w.state.focus == v.focus && w.state.focus_pending == v.focus_pending
            &&& !k.up && !k.down ==> w.state.selected == v.selected
            &&& k.up && !k.down && v.selected > 0 ==> w.state.selected == v.selected - 1
            &&& k.up && !k.down && v.selected == 0 ==> w.state.selected == 0
            &&& k.down && !k.up && v.selected + 1 < v.actions.len() ==> w.state.selected
                == v.selected + 1
            &&& k.down && !k.up && v.selected + 1 >= v.actions.len() ==> w.state.selected
                == v.selected
        }),
        ({
            let w = global_step(v, k);
            &&& !w.done && w.effect == EffectView::Nothing
            &&& w.state == (ReviewView {
                focus: w.state.focus,
                focus_pending: w.state.focus_pending,
                text: w.state.text,
                history_idx: w.state.history_idx,
                ..v
            })
            &&& !k.tab && !k.shift_tab ==> w.state.focus == v.focus && w.state.focus_pending
                == v.focus_pending
            &&& k.tab && !k.shift_tab ==> w.state.focus == next_focus(v.focus)
                && w.state.focus_pending
            &&& k.shift_tab && !k.tab ==> w.state.focus == previous_focus(v.focus)
                && w.state.focus_pending
            &&& !k.alt_left && !k.alt_right ==> w.state.text == v.text && w.state.history_idx
                == v.history_idx
            &&& k.alt_left && !k.alt_right && v.history_idx > 0 ==> w.state.history_idx
                == v.history_idx - 1 && w.state.text == v.history[v.history_idx - 1]
            &&& k.alt_left && !k.alt_right && v.history_idx == 0 ==> w.state.history_idx == 0
                && w.state.text == v.text
            &&& k.alt_right && !k.alt_left && v.history_idx + 1 < v.history.len()
                ==> w.state.history_idx == v.history_idx + 1 && w.state.text
                == v.history[v.history_idx + 1]
            &&& k.alt_right && !k.alt_left && v.history_idx + 1 == v.history.len()
                ==> w.state.history_idx == v.history_idx && w.state.text == v.text
        }),
{
    lemma_no_digit_no_hotkey(v.actions, k.digits@, 1);
}

/// The reading order is the list, the transcript, the instructions, and the list
/// again.
pub proof fn law_the_reading_order()
    ensures
        next_focus(Focus::List) == Focus::Text,
        next_focus(Focus::Text) == Focus::Instructions,
        next_focus(Focus::Instructions) == Focus::List,
{
}

/// A step through the rounds shows a round that is there and changes nothing else;
/// a step past either end does nothing.
pub proof fn law_a_step_shows_a_round(v: ReviewView, delta: int)
    requires
        consistent(v),
    ensures
        ({
            let to = v.history_idx + delta;
            let w = after_step(v, delta);
            &&& 0 <= to < v.history.len() ==> w.text == v.history[to] && w.history_idx == to
            &&& !(0 <= to < v.history.len()) ==> w == v
            &&& w == (ReviewView { text: w.text, history_idx: w.history_idx, ..v })
        }),
{
}

/// A digit that is no action's hotkey does nothing, and where several are pressed
/// the lowest that is a hotkey counts; the first action that has it runs.
pub proof fn law_the_lowest_hotkey_counts(v: ReviewView, k: Keys, d: int, index: int)
    requires
        1 <= d <= 9,
        k.digits@[d],
        0 <= index < v.actions.len(),
        v.actions[index].key == Some(text::digit_char(d)),
        forall|i: int| 0 <= i < index ==> (#[trigger] v.actions[i]).key != Some(
            text::digit_char(d),
        ),
        forall|e: int, i: int|
            1 <= e < d && #[trigger] k.digits@[e] && 0 <= i < v.actions.len() ==> (
            #[trigger] v.actions[i]).key != Some(text::digit_char(e)),
    ensures
        (list_step(v, k).state, list_step(v, k).effect) == after_start(v, index),
        list_step(v, k).done,
{
    lemma_first_keyed(v.actions, text::digit_char(d), index, 0);
    lemma_lowest(v.actions, k.digits@, d, 1);
}

proof fn lemma_first_keyed(actions: Seq<ActionView>, c: char, index: int, i: int)
    requires
        0 <= i <= index < actions.len(),
        actions[index].key == Some(c),
        forall|j: int| i <= j < index ==> (#[trigger] actions[j]).key != Some(c),
    ensures
        keyed_from(actions, c, i) == Some(index),
    decreases index - i,
{
    if i < index {
        lemma_first_keyed(actions, c, index, i + 1);
    }
}

proof fn lemma_not_keyed(actions: Seq<ActionView>, c: char, i: int)
    requires
        0 <= i,
        forall|j: int| i <= j < actions.len() ==> (#[trigger] actions[j]).key != Some(c),
    ensures
        keyed_from(actions, c, i) is None,
    decreases actions.len() - i,
{
    if i < actions.len() {
        lemma_not_keyed(actions, c, i + 1);
    }
}

proof fn lemma_lowest(actions: Seq<ActionView>, digits: Seq<bool>, d: int, from: int)
    requires
        1 <= from <= d <= 9,
        digits[d],
        keyed_from(actions, text::digit_char(d), 0) is Some,
        forall|e: int, i: int|
            from <= e < d && #[trigger] digits[e] && 0 <= i < actions.len() ==> (
            #[trigger] actions[i]).key != Some(text::digit_char(e)),
    ensures
        hotkey_from(actions, digits, from) == keyed_from(actions, text::digit_char(d), 0),
    decreases d - from,
{
    if from < d {
        if digits[from] {
            lemma_not_keyed(actions, text::digit_char(from), 0);
        }
        lemma_lowest(actions, digits, d, from + 1);
    }
}

/// A frame is its steps in order: where a key that means the same everywhere ends
/// it, the workers are not heard; else both are, and the keys of the list count
/// where the keyboard then lives, and nowhere else.
pub proof fn law_a_frame_goes_in_order(
    v: ReviewView,
    k: Keys,
    run: Report<OutcomeView>,
    said: Report<Seq<char>>,
)
    ensures
        ({
            let first = global_step(v, k);
            let heard = after_transcription(after_run(first.state, run), said);
            let f = frame_step(v, k, run, said);
            &&& first.done ==> f == first
            &&& !first.done && heard.focus != Focus::List ==> f.state == heard && !f.done
                && f.effect == EffectView::Nothing
            &&& !first.done && heard.focus == Focus::List ==> f == list_step(heard, k)
        }),
{
}

/// The window is as high as its rows need, within bounds: no row is clipped before
/// the highest window is reached, and none is lower or higher than allowed.
pub proof fn law_the_window_fits_its_rows(n: int, m: int)
    requires
        0 <= n <= m,
    ensures
        380 <= fitting_height(n) <= 640,
        n > 0 && fitting_height(n) < 640 ==> fitting_height(n) >= 252 + 28 + 21 * n,
        fitting_height(n) > 380 && fitting_height(n) < 640 ==> fitting_height(n) == 252 + 28 + 21 * n,
        fitting_height(n) <= fitting_height(m),
        n >= 18 ==> fitting_height(n) == 640,
{
    assert(n * ROW_H == 21 * n) by (nonlinear_arith)
        requires
            ROW_H == 21,
    ;
    assert(m * ROW_H == 21 * m) by (nonlinear_arith)
        requires
            ROW_H == 21,
    ;
}

/// What is going on is shown, the more urgent before the less: an action by its
/// label, then the microphone, then the transcription, then the editing, and then
/// that the text is no longer the one that was dictated. Where nothing is going on
/// and the text is the dictation, nothing is shown.
pub proof fn law_the_status_tells_what_is_going_on(v: ReviewView)
    requires
        consistent(v),
    ensures
        v.running matches Some(i) ==> (status_of(v) matches Some((tone, t)) && tone == Tone::Busy
            && text::holds(t, v.actions[i as int].label)),
        v.running is None && v.recording ==> (status_of(v) matches Some((tone, _)) && tone
            == Tone::Listening),
        v.running is None && !v.recording && (v.transcribing || v.focus != Focus::List) ==> (
        status_of(v) matches Some((tone, _)) && tone == Tone::Busy),
        v.running is None && !v.recording && !v.transcribing && v.focus == Focus::List ==> (
        status_of(v) is None <==> v.text == v.original),
        status_of(v) matches Some((tone, _)) ==> (tone == Tone::Changed ==> v.text != v.original),
{
    if let Some(i) = v.running {
        let label = v.actions[i as int].label;
        let t = "running: "@ + label + " ..."@;
        let n = "running: "@.len() as int;
        assert(t.subrange(n, n + label.len()) =~= label);
        assert(text::occurs_at(t, label, n));
    }
}

/// The round that is shown is told by its number and by how many there are, as soon
/// as there is more than the original.
pub proof fn law_the_round_is_told(v: ReviewView)
    requires
        consistent(v),
    ensures
        v.history.len() == 1 ==> round_of(v) is None,
        v.history.len() > 1 ==> (round_of(v) matches Some(t) && text::holds(
            t,
            "round "@ + text::decimal((v.history_idx + 1) as nat) + "/"@ + text::decimal(
                v.history.len(),
            ) + " "@,
        )),
{
    if v.history.len() > 1 {
        reveal_strlit("   Alt+arrow steps");
        reveal_strlit(" ");
        let t = round_of(v)->0;
        let pat = "round "@ + text::decimal((v.history_idx + 1) as nat) + "/"@ + text::decimal(
            v.history.len(),
        ) + " "@;
        assert(t.subrange(0, pat.len() as int) =~= pat);
        assert(text::occurs_at(t, pat, 0));
    }
}

/// A row shows the hotkey of its action, where there is one, and ends in its label.
pub proof fn law_a_row_shows_its_action(a: ActionView)
    ensures
        a.label.is_suffix_of(row_of(a)),
        a.key matches Some(c) ==> row_of(a)[2] == c,
        a.key is None ==> row_of(a)[2] == ' ',
{
    reveal_strlit("  ");
    let r = row_of(a);
    assert(a.label =~= r.subrange(r.len() - a.label.len(), r.len() as int));
}

/// The popup opens on the dictation, in the list, with nothing typed, run, heard or
/// failed, and only the original to step to.
pub proof fn law_the_popup_opens_on_the_dictation(
    initial: &str,
    actions: Vec<Action>,
    r: Review,
)
    requires
        call_ensures(Review::new, (initial, actions), r),
    ensures
        r.text@ == initial@,
        r.original@ == initial@,
        r.history@.len() == 1 && r.history@[0]@ == initial@,
        r.history_idx == 0,
        r.actions@.len() == actions@.len(),
        forall|i: int| 0 <= i < actions@.len() ==> r@.actions[i] == (#[trigger] actions@[i])@,
        r.focus == Focus::List && !r.focus_pending,
        r.selected == 0 && r.last_action == 0,
        r.instructions@.len() == 0,
        r.running is None && !r.recording && !r.transcribing && r.error is None,
        status_of(r@) is None,
        round_of(r@) is None,
{
    reveal_strlit("");
    let v = r@;
    let o = opened(initial@, crate::action::action_views(actions@));
    assert(v.history == text::texts(r.history@));
    assert(v.history.len() == 1);
    assert(r.history@[0]@ == v.history[0]);
    assert(v.actions.len() == r.actions@.len());
    assert(v.running == r.running);
    assert(v.recording == r.recording && v.transcribing == r.transcribing);
    assert(v.focus == r.focus && v.focus_pending == r.focus_pending);
    assert(v.selected == r.selected && v.last_action == r.last_action);
    assert(v.error == text::opt_text(r.error));
    assert(v.history_idx == r.history_idx);
    assert(v.text == r.text@ && v.original == r.original@ && v.instructions
        == r.instructions@);
}

/// A capture that started is on and clears an old failure; one that did not says why,
/// in its own words, and nothing else changes.
pub proof fn law_a_capture_is_on_or_says_why(v: ReviewView, e: Seq<char>)
    ensures
        after_capture(v, None) == (ReviewView { recording: true, error: None, ..v }),
        after_capture(v, Some(e)) == (ReviewView {
            error: after_capture(v, Some(e)).error,
            ..v
        }),
        after_capture(v, Some(e)).error matches Some(m) && e.is_suffix_of(m),
{
    let m = "voice capture failed to start: "@ + e;
    assert(e =~= m.subrange(m.len() - e.len(), m.len() as int));
}

/// A box is left by Esc alone, and leaving it, clicking another one and clearing the
/// instructions lose no text: only the keyboard moves, and only the instructions go.
pub proof fn law_moving_about_loses_nothing(v: ReviewView, f: Focus)
    ensures
        left(v, false) == v,
        v.focus == Focus::List ==> left(v, true) == v,
        v.focus != Focus::List ==> left(v, true) == (ReviewView {
            focus: Focus::List,
            focus_pending: true,
            ..v
        }),
        v.focus == f ==> clicked(v, f) == v,
        v.focus != f ==> clicked(v, f) == (ReviewView { focus: f, focus_pending: true, ..v }),
        cleared(v) == (ReviewView { instructions: cleared(v).instructions, ..v }),
        cleared(v).instructions.len() == 0,
{
    reveal_strlit("");
}

/// The keyboard is told once where to go: where it has yet to move it is told, and
/// asked again it is not.
pub proof fn law_the_keyboard_is_told_once(v: ReviewView, f: Focus)
    ensures
        settled(v).0 == (ReviewView { focus_pending: false, ..v }),
        v.focus_pending ==> settled(v).1 == Some(v.focus),
        !v.focus_pending ==> settled(v).1 is None,
        settled(settled(v).0).1 is None,
        v.focus != f ==> settled(clicked(v, f)).1 == Some(f),
{
}

/// A click on the row of an action is the same as highlighting it and pressing Space,
/// and a click on the accepting row commits what the box holds.
pub proof fn law_a_click_is_a_key(
    v: ReviewView,
    k: Keys,
    index: int,
    popup: &Review,
    effect: Effect,
)
    requires
        0 <= index < v.actions.len(),
        k.space && !k.escape && !k.enter,
        forall|d: int| 0 <= d < 10 ==> !#[trigger] k.digits@[d],
        call_ensures(Review::click_accept, (popup,), effect),
    ensures
        ({
            let w = list_step(ReviewView { selected: index, ..v }, k);
            picked(v, index) == (w.state, w.effect)
        }),
        picked(v, index).0.selected == index,
        effect matches Effect::Accept(t) && t@ == popup.text@,
{
    law_space_runs_the_highlighted_action(ReviewView { selected: index, ..v }, k);
}

/// Opposite keys that are pressed at once are taken one after the other: the round
/// before and then the one behind it, up and then down, on and then back.
pub proof fn law_opposite_keys_undo_each_other(v: ReviewView, k: Keys)
    requires
        consistent(v),
        v.selected >= 0,
        v.text == v.history[v.history_idx],
    ensures
        k.tab && k.shift_tab ==> cycled(v, k).focus == v.focus && cycled(v, k).focus_pending,
        k.alt_left && k.alt_right && v.history_idx > 0 ==> paged(v, k) == v,
        k.alt_left && k.alt_right && v.history_idx == 0 ==> paged(v, k) == after_step(v, 1),
        k.up && k.down && v.selected > 0 ==> highlighted(v, k) == v.selected,
        k.up && k.down && v.selected == 0 && v.actions.len() > 1 ==> highlighted(v, k) == 1,
{
}

/// A failure is shown, in its own words, for as long as there is one.
pub proof fn law_a_failure_is_shown(popup: &Review, r: Option<String>)
    requires
        call_ensures(Review::banner, (popup,), r),
    ensures
        r is Some <==> popup.error is Some,
        popup.error matches Some(e) ==> (r matches Some(t) && e@.is_suffix_of(t@) && text::holds(
            t@,
            "failed"@,
        )),
{
    if let Some(e) = popup.error {
        assert(popup@.error == Some(e@));
        let t = r->0;
        assert(Some(t@) == text::opt_text(r));
        reveal_strlit("action failed: ");
        reveal_strlit("failed");
        assert(e@ =~= t@.subrange(t@.len() - e@.len(), t@.len() as int));
        assert(t@.subrange(7, 13) =~= "failed"@);
        assert(text::occurs_at(t@, "failed"@, 7));
    } else {
        assert(popup@.error is None);
    }
}

/// A row is highlighted where it is the selected one and the keyboard lives in the
/// list, and nowhere else.
pub proof fn law_one_row_is_highlighted(popup: &Review, index: usize, r: (String, bool))
    requires
        index < popup@.actions.len(),
        call_ensures(Review::row, (popup, index), r),
    ensures
        r.1 <==> popup.focus == Focus::List && popup.selected == index,
        popup.actions@[index as int].label@.is_suffix_of(r.0@),
{
    assert(popup@.actions[index as int] == popup.actions@[index as int]@);
    law_a_row_shows_its_action(popup@.actions[index as int]);
}

/// The legend names the keys that work: in a box how it is left and how the text is
/// pasted, in the list how it is accepted and cancelled, and where there are actions
/// how they are run.
pub proof fn law_the_legend_names_what_works(v: ReviewView)
    ensures
        v.focus != Focus::List ==> text::holds(legend(v), "Esc leave the box"@) && text::holds(
            legend(v),
            "Ctrl+Enter paste"@,
        ),
        v.focus == Focus::List ==> text::holds(legend(v), "Esc cancel (raw)"@) && text::holds(
            legend(v),
            "Enter accept"@,
        ),
        v.focus == Focus::List && v.actions.len() > 0 ==> text::holds(legend(v), "1-9 run action"@)
            && text::holds(legend(v), "Space run"@),
{
    reveal_strlit(
        "Enter run   ·   Ctrl+I speak   ·   Ctrl+Enter paste   ·   Esc leave the box   ·   Tab next box   ·   Alt+arrow rounds",
    );
    reveal_strlit("Enter accept   ·   0 accept now   ·   e edit   ·   Esc cancel (raw)");
    reveal_strlit(
        "Enter accept   ·   0 accept now   ·   1-9 run action, result shows here   ·   ↑↓ select · Space run   ·   Tab boxes   ·   Alt+arrow rounds   ·   e edit   ·   Esc cancel (raw)",
    );
    reveal_strlit("Esc leave the box");
    reveal_strlit("Ctrl+Enter paste");
    reveal_strlit("Esc cancel (raw)");
    reveal_strlit("Enter accept");
    reveal_strlit("1-9 run action");
    reveal_strlit("Space run");
    let t = legend(v);
    if v.focus != Focus::List {
        assert(t.subrange(58, 75) =~= "Esc leave the box"@);
        assert(text::occurs_at(t, "Esc leave the box"@, 58));
        assert(t.subrange(35, 51) =~= "Ctrl+Enter paste"@);
        assert(text::occurs_at(t, "Ctrl+Enter paste"@, 35));
    } else {
        assert(t.subrange(0, 12) =~= "Enter accept"@);
        assert(text::occurs_at(t, "Enter accept"@, 0));
        let n = t.len() as int;
        assert(t.subrange(n - 16, n) =~= "Esc cancel (raw)"@);
        assert(text::occurs_at(t, "Esc cancel (raw)"@, n - 16));
        if v.actions.len() > 0 {
            assert(t.subrange(38, 52) =~= "1-9 run action"@);
            assert(text::occurs_at(t, "1-9 run action"@, 38));
            assert(t.subrange(90, 99) =~= "Space run"@);
            assert(text::occurs_at(t, "Space run"@, 90));
        }
    }
}

/// A key that means nothing where the keyboard lives makes no difference there: Enter and
/// Ctrl+I outside the instructions box, Esc while no capture is on, and the keys of the
/// list, to the step that comes first; and the keys of that step to the list.
pub proof fn law_a_key_without_a_meaning_does_nothing(v: ReviewView, k: Keys, other: Keys)
    ensures
        v.focus != Focus::Instructions ==> global_step(v, k) == global_step(
            v,
            Keys { enter: other.enter, ..k },
        ),
        v.focus != Focus::Instructions && !v.recording ==> global_step(v, k) == global_step(
            v,
            Keys { ctrl_i: other.ctrl_i, ..k },
        ),
        !v.recording ==> global_step(v, k) == global_step(v, Keys { escape: other.escape, ..k }),
        global_step(v, k) == global_step(
            v,
            Keys {
                space: other.space,
                up: other.up,
                down: other.down,
                edit: other.edit,
                digits: other.digits,
                ..k
            },
        ),
        list_step(v, k) == list_step(
            v,
            Keys {
                ctrl_enter: other.ctrl_enter,
                ctrl_i: other.ctrl_i,
                tab: other.tab,
                shift_tab: other.shift_tab,
                alt_left: other.alt_left,
                alt_right: other.alt_right,
                close_requested: other.close_requested,
                ..k
            },
        ),
{
}

} // verus!
