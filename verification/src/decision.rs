//! What the operator decided, and what that sends on.

use vstd::prelude::*;

use crate::action::{Action, ActionFailure, ActionOutcome, FailureView, OutcomeView};
use crate::text;

verus! {

/// What the operator decided in the popup.
#[derive(Debug, PartialEq, Eq)]
pub enum Outcome {
    /// Accept the (possibly edited) text.
    Accept(String),
    /// Apply the action at this index to the current text.
    Apply(usize, String),
    /// Cancelled: the original text is emitted, never nothing.
    Cancel,
}

impl Clone for Outcome {
    fn clone(&self) -> (r: Self)
        ensures
            r == *self,
    {
        match self {
            Outcome::Accept(t) => Outcome::Accept(t.clone()),
            Outcome::Apply(i, t) => Outcome::Apply(*i, t.clone()),
            Outcome::Cancel => Outcome::Cancel,
        }
    }
}

/// The slot after a decision arrives: the first one stays.
pub open spec fn recorded(slot: Option<Outcome>, outcome: Outcome) -> Option<Outcome> {
    match slot {
        Some(first) => Some(first),
        None => Some(outcome),
    }
}

/// Record the operator's decision, and keep the first one.
///
/// The close that a decision requests comes back one frame later and reads as a
/// cancel. It must not land on top of the decision. A close with no decision
/// before it is still a cancel: the slot is empty, so it is recorded.
pub fn record_decision(slot: &mut Option<Outcome>, outcome: Outcome)
    ensures
        *final(slot) == recorded(*old(slot), outcome),
{
    if slot.is_none() {
        *slot = Some(outcome);
    }
}

/// What the popup decided: a window that closed with no decision is a cancel.
pub fn decided(slot: Option<Outcome>) -> (r: Outcome)
    ensures
        r == match slot {
            Some(outcome) => outcome,
            None => Outcome::Cancel,
        },
{
    match slot {
        Some(outcome) => outcome,
        None => Outcome::Cancel,
    }
}

/// No later event overwrites a decision.
pub proof fn law_the_first_decision_wins(slot: Option<Outcome>, first: Outcome, later: Outcome)
    ensures
        recorded(recorded(slot, first), later) == recorded(slot, first),
        recorded(None, first) == Some(first),
{
}

/// The text in the box, or the original where the box was cleared.
pub open spec fn text_to_use(edited: Seq<char>, original: Seq<char>) -> Seq<char> {
    if text::blank(edited) {
        original
    } else {
        edited
    }
}

/// Clearing the box never loses a dictation: what is used is blank only where
/// the original was.
pub proof fn law_clearing_the_box_keeps_the_dictation(edited: Seq<char>, original: Seq<char>)
    ensures
        text::blank(text_to_use(edited, original)) ==> text::blank(original),
{
}

/// Resolve an outcome against the original input: the one place that decides
/// what is sent on.
///
/// `run` runs an action over a text, within a time in milliseconds. It is called
/// for an action that exists, and for nothing else. The paths that run nothing
/// cannot fail and report success, but for an action that is not there, which
/// is reported and keeps the text.
pub fn resolve<F: FnOnce(&Action, &str, u64) -> ActionOutcome>(
    outcome: Outcome,
    original: &str,
    actions: &Vec<Action>,
    timeout_ms: u64,
    run: F,
) -> (r: ActionOutcome)
    requires
        forall|a: &Action, t: &str, ms: u64| run.requires((a, t, ms)),
        outcome matches Outcome::Apply(index, _) ==> index < usize::MAX,
    ensures
        match outcome {
            Outcome::Accept(edited) => r@ == (OutcomeView {
                text: text_to_use(edited@, original@),
                failure: None,
            }),
            Outcome::Apply(index, edited) => if index < actions@.len() {
                exists|t: &str|
                    t@ == text_to_use(edited@, original@) && #[trigger] run.ensures(
                        (&actions@[index as int], t, timeout_ms),
                        r,
                    )
            } else {
                r@ == (OutcomeView {
                    text: text_to_use(edited@, original@),
                    failure: Some(
                        FailureView::NoSuchAction {
                            position: (index + 1) as usize,
                            available: actions@.len() as usize,
                        },
                    ),
                })
            },
            Outcome::Cancel => r@ == (OutcomeView { text: original@, failure: None }),
        },
{
    match outcome {
        Outcome::Accept(edited) => {
            if text::is_blank(edited.as_str()) {
                ActionOutcome::ok(original.to_string())
            } else {
                ActionOutcome::ok(edited)
            }
        },
        Outcome::Apply(index, edited) => {
            let base: &str = if text::is_blank(edited.as_str()) {
                original
            } else {
                edited.as_str()
            };
            if index < actions.len() {
                run(&actions[index], base, timeout_ms)
            } else {
                ActionOutcome::failed(
                    base,
                    ActionFailure::NoSuchAction { position: index + 1, available: actions.len() },
                )
            }
        },
        Outcome::Cancel => ActionOutcome::ok(original.to_string()),
    }
}

/// What the box holds is what is used, to the letter: whatever the dictation was,
/// an edit that is not blank is neither shortened nor replaced, and nothing but a
/// cleared box brings the dictation back.
pub proof fn law_an_edit_is_used_as_it_is(edited: Seq<char>, original: Seq<char>)
    ensures
        (exists|i: int| 0 <= i < edited.len() && !text::is_space(#[trigger] edited[i]))
            ==> text_to_use(edited, original) == edited,
        (forall|i: int| 0 <= i < edited.len() ==> text::is_space(#[trigger] edited[i]))
            ==> text_to_use(edited, original) == original,
{
    text::lemma_blank(edited);
}

/// What is sent on, in terms of what was decided. Accepting sends the edit; an
/// action that is there runs over the edit, as it stands in the list and within
/// the time that was given, and its outcome is what is sent on; an action that is
/// not there is reported by the position that was asked for, and the edit is kept;
/// and cancelling sends the dictation. A box that was cleared stands for the
/// dictation.
pub proof fn law_what_was_decided_is_sent_on<
    F: FnOnce(&Action, &str, u64) -> ActionOutcome,
>(
    outcome: Outcome,
    original: &str,
    actions: &Vec<Action>,
    timeout_ms: u64,
    run: F,
    r: ActionOutcome,
)
    requires
        outcome matches Outcome::Apply(index, _) ==> index < usize::MAX,
        call_ensures(resolve::<F>, (outcome, original, actions, timeout_ms, run), r),
    ensures
        outcome is Cancel ==> r.text@ == original@ && r.failure is None,
        outcome matches Outcome::Accept(edited) ==> {
            &&& r.failure is None
            &&& !text::blank(edited@) ==> r.text@ == edited@
            &&& text::blank(edited@) ==> r.text@ == original@
        },
        outcome matches Outcome::Apply(index, edited) ==> {
            let base = if text::blank(edited@) {
                original@
            } else {
                edited@
            };
            if index < actions@.len() {
                exists|t: &str|
                    t@ == base && #[trigger] run.ensures(
                        (&actions@[index as int], t, timeout_ms),
                        r,
                    )
            } else {
                &&& r.text@ == base
                &&& r.failure matches Some(
                    ActionFailure::NoSuchAction { position, available },
                ) && position == index + 1 && available == actions@.len()
            }
        },
{
    if let Outcome::Accept(edited) = outcome {
        assert(r@.text == r.text@);
    }
}

/// The decision that comes first is the one that is acted on, whatever comes after
/// it, and no decision at all is a cancel.
pub proof fn law_what_is_recorded_is_decided(first: Outcome, later: Seq<Outcome>, r: Outcome)
    requires
        call_ensures(
            decided,
            (later.fold_left(
                recorded(None, first),
                |slot: Option<Outcome>, o: Outcome| recorded(slot, o),
            ),),
            r,
        ),
    ensures
        r == first,
    decreases later.len(),
{
    let keep = |slot: Option<Outcome>, o: Outcome| recorded(slot, o);
    lemma_first_stays(first, later);
}

proof fn lemma_first_stays(first: Outcome, later: Seq<Outcome>)
    ensures
        later.fold_left(
            recorded(None, first),
            |slot: Option<Outcome>, o: Outcome| recorded(slot, o),
        ) == Some(first),
    decreases later.len(),
{
    if later.len() > 0 {
        lemma_first_stays(first, later.drop_last());
    }
}

/// A popup that closed without a decision was cancelled, and one with a decision was
/// decided by it.
pub proof fn law_no_decision_is_a_cancel(slot: Option<Outcome>, r: Outcome)
    requires
        call_ensures(decided, (slot,), r),
    ensures
        slot is None ==> r is Cancel,
        slot matches Some(outcome) ==> r == outcome,
{
}

} // verus!
