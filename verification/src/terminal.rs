//! Cleaning what a command wrote before it reaches a text field.
//!
//! Commands write spinners, cursor moves and redraws to stdout even when it is a
//! pipe. None of that is text the operator meant.

use vstd::prelude::*;

use crate::text;

verus! {

/// What follows a control sequence whose `ESC [` has been read: its last
/// character is the first one in `@`..`~`.
pub open spec fn after_csi(s: Seq<char>) -> Seq<char>
    decreases s.len(),
{
    if s.len() == 0 {
        s
    } else if '@' <= s[0] <= '~' {
        s.drop_first()
    } else {
        after_csi(s.drop_first())
    }
}

/// What follows an operating system command whose `ESC ]` has been read: it
/// ends with BEL, with `ESC \`, or at any other `ESC`.
pub open spec fn after_osc(s: Seq<char>) -> Seq<char>
    decreases s.len(),
{
    if s.len() == 0 {
        s
    } else if s[0] == '\u{7}' {
        s.drop_first()
    } else if s[0] == '\u{1b}' {
        if s.len() > 1 && s[1] == '\\' {
            s.skip(2)
        } else {
            s.drop_first()
        }
    } else {
        after_osc(s.drop_first())
    }
}

/// What follows an escape sequence whose `ESC` has been read.
pub open spec fn after_escape(s: Seq<char>) -> Seq<char> {
    if s.len() == 0 {
        s
    } else if s[0] == '[' {
        after_csi(s.drop_first())
    } else if s[0] == ']' {
        after_osc(s.drop_first())
    } else {
        s.drop_first()
    }
}

/// The control characters below U+0020, but for newline and tab.
pub open spec fn is_control(c: char) -> bool {
    c < '\u{20}' && c != '\n' && c != '\t'
}

/// `s` without its escape sequences and control characters.
pub open spec fn stripped(s: Seq<char>) -> Seq<char>
    decreases s.len(),
    via stripped_decreases
{
    if s.len() == 0 {
        seq![]
    } else if s[0] == '\u{1b}' {
        stripped(after_escape(s.drop_first()))
    } else if is_control(s[0]) {
        stripped(s.drop_first())
    } else {
        seq![s[0]] + stripped(s.drop_first())
    }
}

#[via_fn]
proof fn stripped_decreases(s: Seq<char>) {
    if s.len() > 0 {
        lemma_after_escape_shrinks(s.drop_first());
    }
}

proof fn lemma_after_csi_shrinks(s: Seq<char>)
    ensures
        after_csi(s).len() <= s.len(),
    decreases s.len(),
{
    if s.len() > 0 && !('@' <= s[0] <= '~') {
        lemma_after_csi_shrinks(s.drop_first());
    }
}

proof fn lemma_after_osc_shrinks(s: Seq<char>)
    ensures
        after_osc(s).len() <= s.len(),
    decreases s.len(),
{
    if s.len() > 0 && s[0] != '\u{7}' && s[0] != '\u{1b}' {
        lemma_after_osc_shrinks(s.drop_first());
    }
}

proof fn lemma_after_escape_shrinks(s: Seq<char>)
    ensures
        after_escape(s).len() <= s.len(),
{
    if s.len() > 0 {
        lemma_after_csi_shrinks(s.drop_first());
        lemma_after_osc_shrinks(s.drop_first());
    }
}

/// The output of an action as it may be put into a text field.
pub open spec fn sanitized(s: Seq<char>) -> Seq<char> {
    text::trimmed(stripped(s))
}

fn skip_csi(v: &Vec<char>, from: usize) -> (r: usize)
    requires
        from <= v@.len(),
    ensures
        from <= r <= v@.len(),
        v@.skip(r as int) == after_csi(v@.skip(from as int)),
{
    let mut i: usize = from;
    while i < v.len()
        invariant
            from <= i <= v@.len(),
            after_csi(v@.skip(from as int)) == after_csi(v@.skip(i as int)),
        decreases v@.len() - i,
    {
        assert(v@.skip(i as int).drop_first() =~= v@.skip(i + 1));
        let c: char = v[i];
        i = i + 1;
        if '@' <= c && c <= '~' {
            return i;
        }
    }
    i
}

fn skip_osc(v: &Vec<char>, from: usize) -> (r: usize)
    requires
        from <= v@.len(),
    ensures
        from <= r <= v@.len(),
        v@.skip(r as int) == after_osc(v@.skip(from as int)),
{
    let mut i: usize = from;
    while i < v.len()
        invariant
            from <= i <= v@.len(),
            after_osc(v@.skip(from as int)) == after_osc(v@.skip(i as int)),
        decreases v@.len() - i,
    {
        assert(v@.skip(i as int).drop_first() =~= v@.skip(i + 1));
        let c: char = v[i];
        i = i + 1;
        if c == '\u{7}' {
            return i;
        }
        if c == '\u{1b}' {
            if i < v.len() && v[i] == '\\' {
                assert(v@.skip(i - 1).skip(2) =~= v@.skip(i + 1));
                i = i + 1;
            }
            return i;
        }
    }
    i
}

fn skip_escape(v: &Vec<char>, from: usize) -> (r: usize)
    requires
        from <= v@.len(),
    ensures
        from <= r <= v@.len(),
        v@.skip(r as int) == after_escape(v@.skip(from as int)),
{
    if from >= v.len() {
        return from;
    }
    assert(v@.skip(from as int).drop_first() =~= v@.skip(from + 1));
    if v[from] == '[' {
        skip_csi(v, from + 1)
    } else if v[from] == ']' {
        skip_osc(v, from + 1)
    } else {
        from + 1
    }
}

/// Strip terminal control sequences and surrounding whitespace from an action's
/// output. The output is pasted into whatever the operator was typing in, so a
/// control code is never something they meant.
pub fn sanitize(s: &str) -> (r: String)
    ensures
        r@ == sanitized(s@),
{
    let v = text::chars_of(s);
    let mut out = String::new();
    let mut i: usize = 0;
    assert(v@.skip(0) =~= v@);
    assert(out@ + stripped(v@) =~= stripped(v@));
    while i < v.len()
        invariant
            i <= v@.len(),
            v@ == s@,
            out@ + stripped(v@.skip(i as int)) == stripped(s@),
        decreases v@.len() - i,
    {
        assert(v@.skip(i as int).drop_first() =~= v@.skip(i + 1));
        let c: char = v[i];
        if c == '\u{1b}' {
            i = skip_escape(&v, i + 1);
        } else {
            if c < '\u{20}' && c != '\n' && c != '\t' {
            } else {
                let ghost before = out@;
                out.push(c);
                assert(before + (seq![c] + stripped(v@.skip(i + 1))) =~= out@ + stripped(
                    v@.skip(i + 1),
                ));
            }
            i = i + 1;
        }
    }
    assert(v@.skip(i as int).len() == 0);
    assert(out@ =~= stripped(s@));
    text::trim(out.as_str())
}

/// Cleaned output holds no control character but newline and tab.
proof fn lemma_stripped_clean(s: Seq<char>)
    ensures
        forall|i: int| 0 <= i < stripped(s).len() ==> !is_control(#[trigger] stripped(s)[i]),
    decreases s.len(),
{
    if s.len() > 0 {
        let rest = s.drop_first();
        if s[0] == '\u{1b}' {
            lemma_after_escape_shrinks(rest);
            lemma_stripped_clean(after_escape(rest));
            assert(stripped(s) == stripped(after_escape(rest)));
        } else {
            lemma_stripped_clean(rest);
            if is_control(s[0]) {
                assert(stripped(s) == stripped(rest));
            } else {
                let out = stripped(s);
                assert(out == seq![s[0]] + stripped(rest));
                assert forall|i: int| 0 <= i < out.len() implies !is_control(#[trigger] out[i]) by {
                    if i > 0 {
                        assert(out[i] == stripped(rest)[i - 1]);
                    }
                }
            }
        }
    }
}

/// Text without control characters passes through unchanged.
proof fn lemma_stripped_identity(s: Seq<char>)
    requires
        forall|i: int| 0 <= i < s.len() ==> !is_control(#[trigger] s[i]),
    ensures
        stripped(s) == s,
    decreases s.len(),
{
    if s.len() > 0 {
        let rest = s.drop_first();
        assert(!is_control(s[0]));
        assert forall|i: int| 0 <= i < rest.len() implies !is_control(#[trigger] rest[i]) by {
            assert(rest[i] == s[i + 1]);
        }
        lemma_stripped_identity(rest);
        assert(seq![s[0]] + rest =~= s);
    }
}

/// Terminal control sequences never reach the text field: cleaned text holds no
/// control character but newline and tab.
pub proof fn law_sanitized_holds_no_control_character(s: Seq<char>)
    ensures
        forall|i: int| 0 <= i < sanitized(s).len() ==> !is_control(#[trigger] sanitized(s)[i]),
{
    lemma_stripped_clean(s);
    text::lemma_trimmed(stripped(s));
    let (a, b) = choose|a: int, b: int|
        0 <= a <= b <= stripped(s).len() && text::trimmed(stripped(s)) == #[trigger] stripped(
            s,
        ).subrange(a, b);
    assert forall|i: int| 0 <= i < sanitized(s).len() implies !is_control(
        #[trigger] sanitized(s)[i],
    ) by {
        assert(sanitized(s)[i] == stripped(s)[a + i]);
    }
}

/// Cleaned text neither starts nor ends in whitespace.
pub proof fn law_sanitized_has_no_outer_whitespace(s: Seq<char>)
    ensures
        sanitized(s).len() > 0 ==> !text::is_space(sanitized(s)[0]) && !text::is_space(
            sanitized(s).last(),
        ),
{
    text::lemma_trimmed(stripped(s));
}

/// Cleaning twice is cleaning once.
pub proof fn law_sanitize_is_idempotent(s: Seq<char>)
    ensures
        sanitized(sanitized(s)) == sanitized(s),
{
    law_sanitized_holds_no_control_character(s);
    lemma_stripped_identity(sanitized(s));
    text::lemma_trimmed(stripped(s));
}

/// Ordinary text is left alone: of a text without control characters nothing goes
/// but the whitespace around it.
pub proof fn law_ordinary_text_is_left_alone(s: Seq<char>)
    requires
        forall|i: int| 0 <= i < s.len() ==> !is_control(#[trigger] s[i]),
    ensures
        sanitized(s) == text::trimmed(s),
{
    lemma_stripped_identity(s);
}

/// Text ahead of what else was written is cleaned by itself.
proof fn lemma_stripped_front(front: Seq<char>, rest: Seq<char>)
    requires
        !front.contains('\u{1b}'),
    ensures
        stripped(front + rest) == stripped(front) + stripped(rest),
    decreases front.len(),
{
    if front.len() == 0 {
        assert(front + rest =~= rest);
        assert(stripped(front) + stripped(rest) =~= stripped(rest));
    } else {
        let tail = front.drop_first();
        let whole = front + rest;
        assert(front.contains(front[0]));
        assert forall|i: int| 0 <= i < tail.len() implies #[trigger] tail[i] != '\u{1b}' by {
            assert(tail[i] == front[i + 1]);
            assert(front.contains(front[i + 1]));
        }
        lemma_stripped_front(tail, rest);
        assert(whole[0] == front[0]);
        assert(whole.drop_first() =~= tail + rest);
        assert(stripped(whole) =~= stripped(front) + stripped(rest));
    }
}

proof fn lemma_after_csi(params: Seq<char>, last: char, rest: Seq<char>)
    requires
        forall|i: int| 0 <= i < params.len() ==> !('@' <= #[trigger] params[i] <= '~'),
        '@' <= last <= '~',
    ensures
        after_csi(params + seq![last] + rest) == rest,
    decreases params.len(),
{
    let s = params + seq![last] + rest;
    if params.len() == 0 {
        assert(s[0] == last);
        assert(s.drop_first() =~= rest);
    } else {
        let tail = params.drop_first();
        assert(s[0] == params[0]);
        assert forall|i: int| 0 <= i < tail.len() implies !('@' <= #[trigger] tail[i] <= '~') by {
            assert(tail[i] == params[i + 1]);
        }
        lemma_after_csi(tail, last, rest);
        assert(s.drop_first() =~= tail + seq![last] + rest);
    }
}

proof fn lemma_after_osc(body: Seq<char>, rest: Seq<char>)
    requires
        forall|i: int|
            0 <= i < body.len() ==> #[trigger] body[i] != '\u{7}' && body[i] != '\u{1b}',
    ensures
        after_osc(body + seq!['\u{7}'] + rest) == rest,
        after_osc(body + seq!['\u{1b}', '\\'] + rest) == rest,
    decreases body.len(),
{
    let a = body + seq!['\u{7}'] + rest;
    let b = body + seq!['\u{1b}', '\\'] + rest;
    if body.len() == 0 {
        assert(a[0] == '\u{7}');
        assert(a.drop_first() =~= rest);
        assert(b[0] == '\u{1b}' && b[1] == '\\');
        assert(b.skip(2) =~= rest);
    } else {
        let tail = body.drop_first();
        assert(a[0] == body[0] && b[0] == body[0]);
        assert forall|i: int| 0 <= i < tail.len() implies #[trigger] tail[i] != '\u{7}' && tail[i]
            != '\u{1b}' by {
            assert(tail[i] == body[i + 1]);
        }
        lemma_after_osc(tail, rest);
        assert(a.drop_first() =~= tail + seq!['\u{7}'] + rest);
        assert(b.drop_first() =~= tail + seq!['\u{1b}', '\\'] + rest);
    }
}

/// A control sequence goes whole and takes nothing with it: what stands before it
/// and behind it is cleaned as if it had never been there.
pub proof fn law_a_control_sequence_vanishes(
    before: Seq<char>,
    params: Seq<char>,
    last: char,
    behind: Seq<char>,
)
    requires
        !before.contains('\u{1b}'),
        forall|i: int| 0 <= i < params.len() ==> !('@' <= #[trigger] params[i] <= '~'),
        '@' <= last <= '~',
    ensures
        sanitized(before + seq!['\u{1b}', '['] + params + seq![last] + behind) == sanitized(
            before + behind,
        ),
{
    let sequence = seq!['\u{1b}', '['] + params + seq![last] + behind;
    let whole = before + seq!['\u{1b}', '['] + params + seq![last] + behind;
    assert(whole =~= before + sequence);
    lemma_stripped_front(before, sequence);
    lemma_stripped_front(before, behind);
    let rest = sequence.drop_first();
    assert(rest[0] == '[');
    assert(rest.drop_first() =~= params + seq![last] + behind);
    lemma_after_csi(params, last, behind);
    assert(stripped(sequence) == stripped(behind));
}

/// A command to the terminal, such as one that sets its title, goes whole and takes
/// nothing with it, whichever way it is ended.
pub proof fn law_a_terminal_command_vanishes(
    before: Seq<char>,
    body: Seq<char>,
    behind: Seq<char>,
)
    requires
        !before.contains('\u{1b}'),
        forall|i: int|
            0 <= i < body.len() ==> #[trigger] body[i] != '\u{7}' && body[i] != '\u{1b}',
    ensures
        sanitized(before + seq!['\u{1b}', ']'] + body + seq!['\u{7}'] + behind) == sanitized(
            before + behind,
        ),
        sanitized(before + seq!['\u{1b}', ']'] + body + seq!['\u{1b}', '\\'] + behind) == sanitized(
            before + behind,
        ),
{
    lemma_stripped_front(before, behind);
    lemma_after_osc(body, behind);
    let a = seq!['\u{1b}', ']'] + body + seq!['\u{7}'] + behind;
    assert(before + seq!['\u{1b}', ']'] + body + seq!['\u{7}'] + behind =~= before + a);
    lemma_stripped_front(before, a);
    assert(a.drop_first()[0] == ']');
    assert(a.drop_first().drop_first() =~= body + seq!['\u{7}'] + behind);
    assert(stripped(a) == stripped(behind));
    let b = seq!['\u{1b}', ']'] + body + seq!['\u{1b}', '\\'] + behind;
    assert(before + seq!['\u{1b}', ']'] + body + seq!['\u{1b}', '\\'] + behind =~= before + b);
    lemma_stripped_front(before, b);
    assert(b.drop_first()[0] == ']');
    assert(b.drop_first().drop_first() =~= body + seq!['\u{1b}', '\\'] + behind);
    assert(stripped(b) == stripped(behind));
}

/// Any other escape goes with the one character it has, and a control character
/// goes alone.
pub proof fn law_a_lone_escape_or_control_character_vanishes(
    before: Seq<char>,
    c: char,
    behind: Seq<char>,
)
    requires
        !before.contains('\u{1b}'),
    ensures
        c != '[' && c != ']' ==> sanitized(before + seq!['\u{1b}', c] + behind) == sanitized(
            before + behind,
        ),
        c < '\u{20}' && c != '\n' && c != '\t' && c != '\u{1b}' ==> sanitized(
            before + seq![c] + behind,
        ) == sanitized(before + behind),
        sanitized(before + seq!['\u{1b}']) == sanitized(before),
{
    lemma_stripped_front(before, behind);
    let a = seq!['\u{1b}', c] + behind;
    assert(before + seq!['\u{1b}', c] + behind =~= before + a);
    lemma_stripped_front(before, a);
    assert(a.drop_first()[0] == c);
    assert(a.drop_first().drop_first() =~= behind);
    let b = seq![c] + behind;
    assert(before + seq![c] + behind =~= before + b);
    lemma_stripped_front(before, b);
    assert(b[0] == c);
    assert(b.drop_first() =~= behind);
    let e = seq!['\u{1b}'];
    lemma_stripped_front(before, e);
    assert(e.drop_first().len() == 0);
    assert(stripped(e.drop_first()).len() == 0);
    assert(stripped(e).len() == 0);
    assert(stripped(before) + stripped(e) =~= stripped(before));
}

proof fn lemma_unfinished(s: Seq<char>)
    ensures
        (forall|i: int| 0 <= i < s.len() ==> !('@' <= #[trigger] s[i] <= '~')) ==> after_csi(
            s,
        ).len() == 0,
        (forall|i: int| 0 <= i < s.len() ==> #[trigger] s[i] != '\u{7}' && s[i] != '\u{1b}')
            ==> after_osc(s).len() == 0,
    decreases s.len(),
{
    if s.len() > 0 {
        let tail = s.drop_first();
        lemma_unfinished(tail);
        if forall|i: int| 0 <= i < s.len() ==> !('@' <= #[trigger] s[i] <= '~') {
            assert forall|i: int| 0 <= i < tail.len() implies !('@' <= #[trigger] tail[i]
                <= '~') by {
                assert(tail[i] == s[i + 1]);
            }
            assert(!('@' <= s[0] <= '~'));
        }
        if forall|i: int| 0 <= i < s.len() ==> #[trigger] s[i] != '\u{7}' && s[i] != '\u{1b}' {
            assert forall|i: int| 0 <= i < tail.len() implies #[trigger] tail[i] != '\u{7}'
                && tail[i] != '\u{1b}' by {
                assert(tail[i] == s[i + 1]);
            }
            assert(s[0] != '\u{7}' && s[0] != '\u{1b}');
        }
    }
}

/// A sequence that was never finished goes with all that follows it, and what stands
/// before it stays.
pub proof fn law_an_unfinished_sequence_takes_the_rest(before: Seq<char>, rest: Seq<char>)
    requires
        !before.contains('\u{1b}'),
    ensures
        (forall|i: int| 0 <= i < rest.len() ==> !('@' <= #[trigger] rest[i] <= '~')) ==> sanitized(
            before + seq!['\u{1b}', '['] + rest,
        ) == sanitized(before),
        (forall|i: int| 0 <= i < rest.len() ==> #[trigger] rest[i] != '\u{7}' && rest[i] != '\u{1b}')
            ==> sanitized(before + seq!['\u{1b}', ']'] + rest) == sanitized(before),
{
    lemma_unfinished(rest);
    let a = seq!['\u{1b}', '['] + rest;
    let b = seq!['\u{1b}', ']'] + rest;
    assert(before + seq!['\u{1b}', '['] + rest =~= before + a);
    assert(before + seq!['\u{1b}', ']'] + rest =~= before + b);
    lemma_stripped_front(before, a);
    lemma_stripped_front(before, b);
    assert(a.drop_first()[0] == '[' && b.drop_first()[0] == ']');
    assert(a.drop_first().drop_first() =~= rest);
    assert(b.drop_first().drop_first() =~= rest);
    if forall|i: int| 0 <= i < rest.len() ==> !('@' <= #[trigger] rest[i] <= '~') {
        assert(stripped(after_csi(rest)).len() == 0);
        assert(stripped(before) + stripped(a) =~= stripped(before));
    }
    if forall|i: int| 0 <= i < rest.len() ==> #[trigger] rest[i] != '\u{7}' && rest[i] != '\u{1b}' {
        assert(stripped(after_osc(rest)).len() == 0);
        assert(stripped(before) + stripped(b) =~= stripped(before));
    }
}

/// A command to the terminal that is broken off by another escape ends there, and what
/// follows that escape is read on as text.
pub proof fn law_a_broken_off_command_ends_at_the_escape(
    before: Seq<char>,
    body: Seq<char>,
    behind: Seq<char>,
)
    requires
        !before.contains('\u{1b}'),
        forall|i: int|
            0 <= i < body.len() ==> #[trigger] body[i] != '\u{7}' && body[i] != '\u{1b}',
        behind.len() > 0 ==> behind[0] != '\\',
    ensures
        sanitized(before + seq!['\u{1b}', ']'] + body + seq!['\u{1b}'] + behind) == sanitized(
            before + behind,
        ),
{
    lemma_broken_off(body, behind);
    lemma_stripped_front(before, behind);
    let a = seq!['\u{1b}', ']'] + body + seq!['\u{1b}'] + behind;
    assert(before + seq!['\u{1b}', ']'] + body + seq!['\u{1b}'] + behind =~= before + a);
    lemma_stripped_front(before, a);
    assert(a.drop_first()[0] == ']');
    assert(a.drop_first().drop_first() =~= body + seq!['\u{1b}'] + behind);
    assert(stripped(a) == stripped(behind));
}

proof fn lemma_broken_off(body: Seq<char>, behind: Seq<char>)
    requires
        forall|i: int|
            0 <= i < body.len() ==> #[trigger] body[i] != '\u{7}' && body[i] != '\u{1b}',
        behind.len() > 0 ==> behind[0] != '\\',
    ensures
        after_osc(body + seq!['\u{1b}'] + behind) == behind,
    decreases body.len(),
{
    let a = body + seq!['\u{1b}'] + behind;
    if body.len() == 0 {
        assert(a[0] == '\u{1b}');
        assert(a.drop_first() =~= behind);
        if behind.len() > 0 {
            assert(a[1] == behind[0]);
        }
    } else {
        let tail = body.drop_first();
        assert(a[0] == body[0]);
        assert forall|i: int| 0 <= i < tail.len() implies #[trigger] tail[i] != '\u{7}' && tail[i]
            != '\u{1b}' by {
            assert(tail[i] == body[i + 1]);
        }
        lemma_broken_off(tail, behind);
        assert(a.drop_first() =~= tail + seq!['\u{1b}'] + behind);
    }
}

} // verus!
