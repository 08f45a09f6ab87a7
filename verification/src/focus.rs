//! The window the operator dictated into, and how focus gets back to it.
//!
//! Focus does not return to the origin window unaided, so it is captured before
//! the popup opens, restored before the text goes out, and held for a grace
//! period afterwards.

use vstd::prelude::*;

use crate::text;

verus! {

/// How often to look for the popup's window before going on regardless.
pub const PROBES: u32 = 10;

/// How long to wait between two looks for the popup's window.
pub const PROBE_MS: u64 = 100;

/// How often to try to focus the origin window.
pub const ATTEMPTS: u32 = 5;

/// How long to let the window manager settle before checking the focus.
pub const SETTLE_MS: u64 = 60;

/// How long to wait before the next attempt to focus.
pub const RETRY_MS: u64 = 80;

/// How long to wait between two checks while holding the focus.
pub const HOLD_CHECK_MS: u64 = 50;

/// What a command that was run to its end produced.
#[derive(Debug)]
pub struct Output {
    pub success: bool,
    pub stdout: Vec<u8>,
}

/// The window id in what a query wrote, empty where it did not succeed.
pub open spec fn window_in(success: bool, stdout: Seq<char>) -> Seq<char> {
    if success {
        text::trimmed(stdout)
    } else {
        seq![]
    }
}

/// The window id in what a query wrote, empty where it did not succeed.
pub fn window_from(success: bool, stdout: &str) -> (r: String)
    ensures
        r@ == window_in(success, stdout@),
{
    if success {
        text::trim(stdout)
    } else {
        String::new()
    }
}

/// The window a query of the display reported. Empty when it could not be run,
/// failed, or reported none.
pub fn reported_window(output: &Option<Output>) -> (r: String)
    ensures
        r@ == match *output {
            Some(o) => window_in(o.success, text::as_read(o.stdout@)),
            None => seq![],
        },
{
    match output {
        Some(o) => {
            let stdout = text::read_bytes(o.stdout.as_slice());
            window_from(o.success, stdout.as_str())
        },
        None => String::new(),
    }
}

/// Whether a search for the popup's window found none. A search that cannot be
/// run, fails, or lists nothing found none.
pub fn window_gone(output: &Option<Output>) -> (r: bool)
    ensures
        r == match *output {
            Some(o) => window_in(o.success, text::as_read(o.stdout@)).len() == 0,
            None => true,
        },
{
    let found = reported_window(output);
    found.as_str().is_empty()
}

/// The window that was focused when the program started: the one the operator
/// dictated into, and the one the text will be pasted into.
#[derive(Debug, PartialEq, Eq)]
pub struct Origin {
    pub window_id: Option<String>,
}

impl Clone for Origin {
    fn clone(&self) -> (r: Self)
        ensures
            r == *self,
    {
        Origin { window_id: self.window_id.clone() }
    }
}

/// Where the restoring of the focus stands.
#[derive(Debug, PartialEq, Eq)]
pub enum RestoreStep {
    /// Look for the popup's own window, for the `attempt`th time.
    Probe { attempt: u32 },
    /// Focus the origin window, let it settle, and check, for the `attempt`th time.
    Focus { attempt: u32 },
    /// Over: whether the focus was seen on the origin window.
    Done { restored: bool },
}

/// How many steps the restoring of the focus can still take.
pub open spec fn steps_left(step: RestoreStep) -> int {
    match step {
        RestoreStep::Probe { attempt } => PROBES - attempt + 1 + ATTEMPTS,
        RestoreStep::Focus { attempt } => ATTEMPTS - attempt + 1,
        RestoreStep::Done { .. } => 0,
    }
}

/// The steps the restoring of the focus can be at.
pub open spec fn valid_step(step: RestoreStep) -> bool {
    match step {
        RestoreStep::Probe { attempt } => 1 <= attempt <= PROBES,
        RestoreStep::Focus { attempt } => 1 <= attempt <= ATTEMPTS,
        RestoreStep::Done { .. } => true,
    }
}

impl Origin {
    /// The origin, given the id of the active window. No id is not an error: the
    /// text still goes out, the focus just cannot be restored.
    pub fn capture(active: String) -> (r: Self)
        ensures
            text::opt_text(r.window_id) == (if active@.len() == 0 {
                None
            } else {
                Some(active@)
            }),
    {
        if active.as_str().is_empty() {
            Origin { window_id: None }
        } else {
            Origin { window_id: Some(active) }
        }
    }

    /// The first step of handing the focus back. Without an origin window there
    /// is nothing to restore.
    pub fn restore(&self) -> (r: RestoreStep)
        ensures
            r == (if self.window_id is Some {
                RestoreStep::Probe { attempt: 1 }
            } else {
                RestoreStep::Done { restored: false }
            }),
            valid_step(r),
            steps_left(r) <= PROBES + ATTEMPTS,
    {
        if self.window_id.is_some() {
            RestoreStep::Probe { attempt: 1 }
        } else {
            RestoreStep::Done { restored: false }
        }
    }

    /// `window` is the origin window.
    pub open spec fn is_window(&self, window: Seq<char>) -> bool {
        text::opt_text(self.window_id) == Some(window)
    }

    /// The step after checking the focus: over when both the window that gets
    /// keystrokes and the active window are the origin, and after the last
    /// attempt. With it, how long to wait first.
    pub fn after_focus(&self, attempt: u32, focused: &str, active: &str) -> (r: (RestoreStep, u64))
        requires
            1 <= attempt <= ATTEMPTS,
        ensures
            r == (if self.is_window(focused@) && self.is_window(active@) {
                (RestoreStep::Done { restored: true }, 0u64)
            } else if attempt < ATTEMPTS {
                (RestoreStep::Focus { attempt: (attempt + 1) as u32 }, RETRY_MS)
            } else {
                (RestoreStep::Done { restored: false }, RETRY_MS)
            }),
            valid_step(r.0),
            steps_left(r.0) < steps_left(RestoreStep::Focus { attempt }),
    {
        let restored = match &self.window_id {
            Some(id) => text::same(focused, id.as_str()) && text::same(active, id.as_str()),
            None => false,
        };
        if restored {
            (RestoreStep::Done { restored: true }, 0)
        } else if attempt < ATTEMPTS {
            (RestoreStep::Focus { attempt: attempt + 1 }, RETRY_MS)
        } else {
            (RestoreStep::Done { restored: false }, RETRY_MS)
        }
    }

    /// Whether to go on holding the focus, `waited_ms` into a grace period of
    /// `ms`. Without an origin window there is nothing to hold.
    pub fn hold(&self, waited_ms: u128, ms: u64) -> (r: bool)
        ensures
            r == (self.window_id is Some && waited_ms < ms),
    {
        self.window_id.is_some() && waited_ms < ms as u128
    }

    /// Whether the focus was stolen: some window is reported and it is not the
    /// origin.
    pub fn stolen(&self, focused: &str) -> (r: bool)
        ensures
            r == (self.window_id is Some && focused@.len() > 0 && !self.is_window(focused@)),
    {
        match &self.window_id {
            Some(id) => !focused.is_empty() && !text::same(focused, id.as_str()),
            None => false,
        }
    }
}

/// The step after a look for the popup's window, and how long to wait first.
/// Activating while the window still exists would be undone by the window
/// manager, so the focus waits until it is gone, or until the last probe.
pub fn after_probe(attempt: u32, gone: bool) -> (r: (RestoreStep, u64))
    requires
        1 <= attempt <= PROBES,
    ensures
        r == (if gone {
            (RestoreStep::Focus { attempt: 1 }, 0u64)
        } else if attempt < PROBES {
            (RestoreStep::Probe { attempt: (attempt + 1) as u32 }, PROBE_MS)
        } else {
            (RestoreStep::Focus { attempt: 1 }, PROBE_MS)
        }),
        valid_step(r.0),
        steps_left(r.0) < steps_left(RestoreStep::Probe { attempt }),
{
    if gone {
        (RestoreStep::Focus { attempt: 1 }, 0)
    } else if attempt < PROBES {
        (RestoreStep::Probe { attempt: attempt + 1 }, PROBE_MS)
    } else {
        (RestoreStep::Focus { attempt: 1 }, PROBE_MS)
    }
}

/// The transcript in what was read from stdin. Invalid UTF-8 is replaced rather
/// than rejected, and input that cannot be read is an empty transcript.
pub fn read_input(read: Option<Vec<u8>>) -> (r: String)
    ensures
        r@ == match read {
            Some(bytes) => text::as_read(bytes@),
            None => seq![],
        },
{
    match read {
        Some(bytes) => text::read_bytes(bytes.as_slice()),
        None => String::new(),
    }
}

// ---------------------------------------------------------------------------
// What handing the focus back can be relied on for
// ---------------------------------------------------------------------------

/// The window that a query reports is what it printed, without the whitespace around
/// it; a query that failed or could not be run reports none.
pub proof fn law_the_reported_window(
    output: &Option<Output>,
    before: Seq<char>,
    id: Seq<char>,
    behind: Seq<char>,
    r: String,
    gone: bool,
)
    requires
        call_ensures(reported_window, (output,), r),
        call_ensures(window_gone, (output,), gone),
        forall|i: int| 0 <= i < before.len() ==> text::is_space(#[trigger] before[i]),
        forall|i: int| 0 <= i < behind.len() ==> text::is_space(#[trigger] behind[i]),
        id.len() > 0 ==> !text::is_space(id[0]) && !text::is_space(id.last()),
    ensures
        *output is None ==> r@.len() == 0 && gone,
        *output matches Some(o) ==> (!o.success ==> r@.len() == 0 && gone),
        *output matches Some(o) ==> (o.success && o.stdout@ == vstd::utf8::encode_utf8(
            before + id + behind,
        ) ==> r@ == id && (gone <==> id.len() == 0)),
{
    text::law_valid_text_is_read_unaltered(before + id + behind);
    text::law_trimming_leaves_what_stands_between(before, id, behind);
}

/// The focus counts as restored exactly where both windows that are reported are the
/// origin; before the last attempt anything else is tried again, and no attempt
/// comes after the last.
pub proof fn law_the_focus_is_restored_when_it_is_seen(
    origin: &Origin,
    attempt: u32,
    focused: &str,
    active: &str,
    r: (RestoreStep, u64),
)
    requires
        1 <= attempt <= 5,
        call_ensures(Origin::after_focus, (origin, attempt, focused, active), r),
    ensures
        ({
            let seen = origin.window_id matches Some(id) && id@ == focused@ && id@ == active@;
            &&& r.0 == (RestoreStep::Done { restored: true }) <==> seen
            &&& !seen && attempt < 5 ==> (r.0 matches RestoreStep::Focus { attempt: next } && next
                == attempt + 1)
            &&& !seen && attempt == 5 ==> r.0 == (RestoreStep::Done { restored: false })
            &&& !seen ==> r.1 > 0
        }),
{
}

/// The focus is tried as soon as the popup is gone, and in any case after the last
/// look; until then the popup is looked for again.
pub proof fn law_the_focus_waits_for_the_popup(attempt: u32, gone: bool, r: (RestoreStep, u64))
    requires
        1 <= attempt <= 10,
        call_ensures(after_probe, (attempt, gone), r),
    ensures
        r.0 == (RestoreStep::Focus { attempt: 1 }) <==> gone || attempt == 10,
        !gone && attempt < 10 ==> (r.0 matches RestoreStep::Probe { attempt: next } && next
            == attempt + 1),
        gone ==> r.1 == 0,
        !gone ==> r.1 > 0,
{
}

/// A window that was there is the origin, and without one there is nothing to restore
/// or to hold. While the focus is held, any window but the origin has stolen it, and
/// it is held for as long as was asked and no longer.
pub proof fn law_the_origin_is_held(
    active: String,
    origin: Origin,
    first: RestoreStep,
    waited_ms: u128,
    ms: u64,
    holds: bool,
    focused: &str,
    stolen: bool,
)
    requires
        call_ensures(Origin::capture, (active,), origin),
        call_ensures(Origin::restore, (&origin,), first),
        call_ensures(Origin::hold, (&origin, waited_ms, ms), holds),
        call_ensures(Origin::stolen, (&origin, focused), stolen),
    ensures
        active@.len() > 0 ==> (origin.window_id matches Some(id) && id@ == active@),
        active@.len() == 0 ==> origin.window_id is None,
        active@.len() > 0 ==> first == (RestoreStep::Probe { attempt: 1 }),
        active@.len() == 0 ==> first == (RestoreStep::Done { restored: false }),
        holds <==> active@.len() > 0 && waited_ms < ms,
        stolen <==> active@.len() > 0 && focused@.len() > 0 && focused@ != active@,
{
}

/// What is read from stdin is the transcript: text that is UTF-8 to the letter, and
/// nothing where nothing could be read.
pub proof fn law_the_input_is_the_transcript(read: Option<Vec<u8>>, typed: Seq<char>, r: String)
    requires
        call_ensures(read_input, (read,), r),
    ensures
        read is None ==> r@.len() == 0,
        read matches Some(bytes) ==> (bytes@ == vstd::utf8::encode_utf8(typed) ==> r@ == typed),
{
    text::law_valid_text_is_read_unaltered(typed);
}

} // verus!
