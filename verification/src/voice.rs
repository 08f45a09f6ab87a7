//! Spoken instructions: what was said, out of what the transcriber printed.

use vstd::prelude::*;

use crate::place::{Base, Place};
use crate::text;

verus! {

// ---------------------------------------------------------------------------
// The transcript
// ---------------------------------------------------------------------------

/// What follows the first `m`.
pub open spec fn after_m(s: Seq<char>) -> Seq<char>
    decreases s.len(),
{
    if s.len() == 0 {
        s
    } else if s[0] == 'm' {
        s.drop_first()
    } else {
        after_m(s.drop_first())
    }
}

proof fn lemma_after_m(s: Seq<char>)
    ensures
        after_m(s).len() <= s.len(),
    decreases s.len(),
{
    if s.len() > 0 && s[0] != 'm' {
        lemma_after_m(s.drop_first());
    }
}

/// The text without its colours: without the stretches from an escape character
/// to the next `m`.
pub open spec fn uncolored(s: Seq<char>) -> Seq<char>
    decreases s.len(),
    via uncolored_decreases
{
    if s.len() == 0 {
        seq![]
    } else if s[0] == '\u{1b}' {
        uncolored(after_m(s.drop_first()))
    } else {
        seq![s[0]] + uncolored(s.drop_first())
    }
}

#[via_fn]
proof fn uncolored_decreases(s: Seq<char>) {
    if s.len() > 0 {
        lemma_after_m(s.drop_first());
    }
}

/// The index of the last `c` in `s`.
pub open spec fn last_index(s: Seq<char>, c: char) -> Option<int>
    decreases s.len(),
{
    if s.len() == 0 {
        None
    } else if s.last() == c {
        Some(s.len() - 1)
    } else {
        last_index(s.drop_last(), c)
    }
}

/// What stands between the first and the last quote of a line that reports a
/// transcription.
pub open spec fn quoted_transcript(line: Seq<char>) -> Option<Seq<char>> {
    if !text::holds(line, "Transcription completed"@) {
        None
    } else {
        let start = text::index_or_len(line, '"');
        match last_index(line, '"') {
            Some(end) => if start < end {
                Some(line.subrange(start + 1, end))
            } else {
                None
            },
            None => None,
        }
    }
}

/// The transcript of the last line that reports one.
pub open spec fn last_transcript(lines: Seq<Seq<char>>) -> Option<Seq<char>>
    decreases lines.len(),
{
    if lines.len() == 0 {
        None
    } else {
        match quoted_transcript(lines.last()) {
            Some(t) => Some(t),
            None => last_transcript(lines.drop_last()),
        }
    }
}

/// The last line that holds more than whitespace.
pub open spec fn last_line(lines: Seq<Seq<char>>) -> Option<Seq<char>>
    decreases lines.len(),
{
    if lines.len() == 0 {
        None
    } else if text::blank(lines.last()) {
        last_line(lines.drop_last())
    } else {
        Some(lines.last())
    }
}

/// What was said: the transcript that is reported last, else the last line that
/// holds anything, else nothing.
pub open spec fn transcript_in(stdout: Seq<char>) -> Seq<char> {
    let lines = text::line_list(uncolored(stdout));
    match last_transcript(lines) {
        Some(t) => t,
        None => match last_line(lines) {
            Some(l) => l,
            None => ""@,
        },
    }
}

fn uncolor(s: &str) -> (r: String)
    ensures
        r@ == uncolored(s@),
{
    let v = text::chars_of(s);
    let n: usize = v.len();
    let mut out = String::new();
    let mut inside = false;
    let mut i: usize = 0;
    assert(v@.skip(0) =~= v@);
    assert(out@ + uncolored(v@) =~= uncolored(v@));
    while i < n
        invariant
            i <= n,
            n == v@.len(),
            v@ == s@,
            uncolored(v@) == out@ + (if inside {
                uncolored(after_m(v@.skip(i as int)))
            } else {
                uncolored(v@.skip(i as int))
            }),
        decreases n - i,
    {
        let c: char = v[i];
        let ghost here = v@.skip(i as int);
        let ghost before = out@;
        assert(here[0] == c);
        assert(here.drop_first() =~= v@.skip(i + 1));
        if inside {
            if c == 'm' {
                inside = false;
            }
        } else if c == '\u{1b}' {
            inside = true;
        } else {
            out.push(c);
            assert(before + (seq![c] + uncolored(v@.skip(i + 1))) =~= out@ + uncolored(
                v@.skip(i + 1),
            ));
        }
        i = i + 1;
    }
    assert(v@.skip(i as int).len() == 0);
    assert(after_m(v@.skip(i as int)).len() == 0);
    assert(uncolored(v@) =~= out@);
    out
}

fn find_transcript(line: &str) -> (r: Option<String>)
    ensures
        text::opt_text(r) == quoted_transcript(line@),
{
    if !text::contains(line, "Transcription completed") {
        return None;
    }
    let v = text::chars_of(line);
    let n: usize = v.len();
    let mut start: usize = 0;
    assert(v@.skip(0) =~= v@);
    while start < n && v[start] != '"'
        invariant
            start <= n,
            n == v@.len(),
            forall|j: int| 0 <= j < start ==> v@[j] != '"',
        decreases n - start,
    {
        start = start + 1;
    }
    proof {
        text::lemma_index_or_len_is(v@, '"', start as int);
    }
    let mut end: usize = n;
    assert(v@.take(n as int) =~= v@);
    while end > 0 && v[end - 1] != '"'
        invariant
            end <= n,
            n == v@.len(),
            last_index(v@, '"') == last_index(v@.take(end as int), '"'),
        decreases end,
    {
        let ghost here = v@.take(end as int);
        assert(here.last() == v@[end - 1]);
        assert(here.drop_last() =~= v@.take(end - 1));
        end = end - 1;
    }
    if end == 0 {
        assert(v@.take(0).len() == 0);
        return None;
    }
    assert(v@.take(end as int).last() == '"');
    assert(last_index(v@, '"') == Some(end - 1));
    if start < end - 1 {
        let t = text::string_of(&v, start + 1, end - 1);
        return Some(t);
    }
    None
}

/// What was said, out of what the transcriber printed.
///
/// It prints a wall of coloured log lines and puts the transcript in quotes at
/// the end of one of them; the instructions box wants only the words.
pub fn extract_transcript(stdout: &str) -> (r: String)
    ensures
        r@ == transcript_in(stdout@),
{
    let clean = uncolor(stdout);
    let lines = text::lines(clean.as_str());
    let ghost all = text::texts(lines@);
    let n: usize = lines.len();
    let mut i: usize = n;
    assert(all.take(n as int) =~= all);
    while i > 0
        invariant
            i <= n,
            n == lines@.len(),
            all == text::texts(lines@),
            all == text::line_list(uncolored(stdout@)),
            last_transcript(all) == last_transcript(all.take(i as int)),
        decreases i,
    {
        let ghost here = all.take(i as int);
        assert(here.last() == lines@[i - 1]@);
        assert(here.drop_last() =~= all.take(i - 1));
        match find_transcript(lines[i - 1].as_str()) {
            Some(t) => return t,
            None => {},
        }
        i = i - 1;
    }
    assert(all.take(0).len() == 0);
    let mut k: usize = n;
    while k > 0
        invariant
            k <= n,
            n == lines@.len(),
            all == text::texts(lines@),
            all == text::line_list(uncolored(stdout@)),
            last_transcript(all) is None,
            last_line(all) == last_line(all.take(k as int)),
        decreases k,
    {
        let ghost here = all.take(k as int);
        assert(here.last() == lines@[k - 1]@);
        assert(here.drop_last() =~= all.take(k - 1));
        if !text::is_blank(lines[k - 1].as_str()) {
            return lines[k - 1].clone();
        }
        k = k - 1;
    }
    assert(all.take(0).len() == 0);
    "".to_string()
}

/// A transcript is read whole, quotes and all: what stands between the first
/// quote of the line and the quote that ends it.
pub proof fn law_a_reported_transcript_is_read_whole(head: Seq<char>, said: Seq<char>)
    requires
        text::holds(head, "Transcription completed"@),
        !head.contains('"'),
    ensures
        quoted_transcript(head + seq!['"'] + said + seq!['"']) == Some(said),
{
    let pat = "Transcription completed"@;
    let line = head + seq!['"'] + said + seq!['"'];
    let i = choose|i: int| text::occurs_at(head, pat, i);
    assert(line.subrange(i, i + pat.len()) =~= head.subrange(i, i + pat.len()));
    assert(text::occurs_at(line, pat, i));
    assert forall|j: int| 0 <= j < head.len() implies line[j] != '"' by {
        assert(line[j] == head[j]);
    }
    assert(line[head.len() as int] == '"');
    text::lemma_index_or_len_is(line, '"', head.len() as int);
    assert(line.last() == '"');
    assert(line.subrange(head.len() as int + 1, line.len() - 1) =~= said);
}

// ---------------------------------------------------------------------------
// A capture
// ---------------------------------------------------------------------------

/// How transcribing a capture went.
#[derive(Debug)]
pub enum Transcription {
    /// The capture could not be made into a file to transcribe.
    NotConverted,
    /// The transcriber could not be run.
    NotRun(String),
    /// What the transcriber printed.
    Printed(Vec<u8>),
}

/// What goes into the instructions box for a capture.
pub fn spoken_text(t: &Transcription) -> (r: String)
    ensures
        r@ == (match *t {
            Transcription::NotConverted => ""@,
            Transcription::NotRun(e) => "__transcribe_error__"@ + e@,
            Transcription::Printed(out) => transcript_in(text::as_read(out@)),
        }),
{
    match t {
        Transcription::NotConverted => "".to_string(),
        Transcription::NotRun(e) => {
            let mut r = "__transcribe_error__".to_string();
            r.append(e.as_str());
            r
        },
        Transcription::Printed(out) => {
            let printed = text::read_bytes(out.as_slice());
            extract_transcript(printed.as_str())
        },
    }
}

/// A line that tells how loud a capture was.
pub open spec fn tells_loudness(line: Seq<char>) -> bool {
    text::holds(line, "RMS"@) && text::holds(line, "amplitude"@)
}

/// The first line that tells how loud a capture was.
pub open spec fn loudness_in(lines: Seq<Seq<char>>) -> Option<Seq<char>>
    decreases lines.len(),
{
    if lines.len() == 0 {
        None
    } else if tells_loudness(lines[0]) {
        Some(text::trimmed(lines[0]))
    } else {
        loudness_in(lines.drop_first())
    }
}

/// How loud a capture was, out of what the measurement wrote to stderr.
pub open spec fn loudness_text(stderr: Option<Seq<char>>) -> Seq<char> {
    match stderr {
        None => "sox stat failed"@,
        Some(t) => match loudness_in(text::line_list(t)) {
            Some(l) => l,
            None => "no rms line"@,
        },
    }
}

/// How loud a capture was, out of what the measurement wrote to stderr. Near
/// silence means that the microphone delivered nothing, whatever the sizes say.
pub fn loudness(stderr: Option<&[u8]>) -> (r: String)
    ensures
        r@ == loudness_text(
            match stderr {
                Some(raw) => Some(text::as_read(raw@)),
                None => None,
            },
        ),
{
    let raw = match stderr {
        None => return "sox stat failed".to_string(),
        Some(raw) => raw,
    };
    let printed = text::read_bytes(raw);
    let lines = text::lines(printed.as_str());
    let ghost all = text::texts(lines@);
    let mut i: usize = 0;
    assert(all.skip(0) =~= all);
    while i < lines.len()
        invariant
            i <= lines@.len(),
            all == text::texts(lines@),
            all == text::line_list(printed@),
            stderr == Some(raw),
            printed@ == text::as_read(raw@),
            loudness_in(all) == loudness_in(all.skip(i as int)),
        decreases lines@.len() - i,
    {
        let ghost here = all.skip(i as int);
        assert(here[0] == lines@[i as int]@);
        assert(here.drop_first() =~= all.skip(i + 1));
        let line = lines[i].as_str();
        if text::contains(line, "RMS") && text::contains(line, "amplitude") {
            return text::trim(line);
        }
        i = i + 1;
    }
    assert(all.skip(i as int).len() == 0);
    "no rms line".to_string()
}

/// What is kept of a capture beside the audio: when a transcription is wrong, it
/// tells whether the capture or the model was at fault.
pub fn capture_log(raw_bytes: u64, wav_bytes: u64, loudness: &str, said: &str) -> (r: String)
    ensures
        r@ == "raw="@ + text::decimal(raw_bytes as nat) + "B wav="@ + text::decimal(
            wav_bytes as nat,
        ) + "B\n"@ + loudness@ + "\ntext: "@ + said@ + "\n"@,
{
    let mut r = "raw=".to_string();
    r.append(text::to_decimal(raw_bytes as u128).as_str());
    r.append("B wav=");
    r.append(text::to_decimal(wav_bytes as u128).as_str());
    r.append("B\n");
    r.append(loudness);
    r.append("\ntext: ");
    r.append(said);
    r.append("\n");
    r
}

/// Which file of a capture is kept: the converted one, unless it is empty.
pub fn keeps_converted(wav_bytes: u64) -> (r: bool)
    ensures
        r == (wav_bytes > 0),
{
    wav_bytes > 0
}

/// The name under which a file of a capture is kept.
pub fn kept_name(stamp: u64, extension: &str) -> (r: String)
    ensures
        r@ == "voice-"@ + text::decimal(stamp as nat) + "."@ + extension@,
{
    let mut r = "voice-".to_string();
    r.append(text::to_decimal(stamp as u128).as_str());
    r.append(".");
    r.append(extension);
    r
}

/// Where captures are kept, given whether `$HOME` is set. Without it, the
/// directory for temporary files serves.
pub fn captures_path(home: bool) -> (r: Option<Place>)
    ensures
        match r {
            Some(p) => home && p.base == Base::Home && p.below@
                == ".local/state/voxtype-review/voice-debug"@,
            None => !home,
        },
{
    if home {
        Some(Place { base: Base::Home, below: ".local/state/voxtype-review/voice-debug" })
    } else {
        None
    }
}

/// Colours go and take nothing with them: text before an escape stays, and what
/// stands behind the `m` that ends it is read as if it had never been there.
pub proof fn law_colours_go_alone(before: Seq<char>, color: Seq<char>, behind: Seq<char>)
    requires
        !before.contains('\u{1b}'),
        !color.contains('m'),
    ensures
        uncolored(before + seq!['\u{1b}'] + color + seq!['m'] + behind) == before + uncolored(behind),
        uncolored(before) == before,
{
    let nothing: Seq<char> = seq![];
    lemma_uncolored_front(before, nothing);
    assert(before + nothing =~= before);
    assert(before + uncolored(nothing) =~= before);
    let tail = seq!['\u{1b}'] + color + seq!['m'] + behind;
    assert(before + seq!['\u{1b}'] + color + seq!['m'] + behind =~= before + tail);
    lemma_uncolored_front(before, tail);
    assert(tail.drop_first() =~= color + seq!['m'] + behind);
    lemma_after_m_is(color, behind);
}

proof fn lemma_uncolored_front(front: Seq<char>, rest: Seq<char>)
    requires
        !front.contains('\u{1b}'),
    ensures
        uncolored(front + rest) == front + uncolored(rest),
    decreases front.len(),
{
    if front.len() == 0 {
        assert(front + rest =~= rest);
        assert(front + uncolored(rest) =~= uncolored(rest));
    } else {
        let tail = front.drop_first();
        let whole = front + rest;
        assert(front.contains(front[0]));
        assert forall|i: int| 0 <= i < tail.len() implies #[trigger] tail[i] != '\u{1b}' by {
            assert(tail[i] == front[i + 1]);
            assert(front.contains(front[i + 1]));
        }
        lemma_uncolored_front(tail, rest);
        assert(whole[0] == front[0]);
        assert(whole.drop_first() =~= tail + rest);
        assert(uncolored(whole) =~= front + uncolored(rest));
    }
}

proof fn lemma_after_m_is(color: Seq<char>, behind: Seq<char>)
    requires
        !color.contains('m'),
    ensures
        after_m(color + seq!['m'] + behind) == behind,
    decreases color.len(),
{
    let s = color + seq!['m'] + behind;
    if color.len() == 0 {
        assert(s[0] == 'm');
        assert(s.drop_first() =~= behind);
    } else {
        let tail = color.drop_first();
        assert(color.contains(color[0]));
        assert(s[0] == color[0]);
        assert forall|i: int| 0 <= i < tail.len() implies #[trigger] tail[i] != 'm' by {
            assert(tail[i] == color[i + 1]);
            assert(color.contains(color[i + 1]));
        }
        lemma_after_m_is(tail, behind);
        assert(s.drop_first() =~= tail + seq!['m'] + behind);
    }
}

/// A line of what the transcriber prints: without line endings and colours.
pub open spec fn is_plain_line(line: Seq<char>) -> bool {
    &&& !line.contains('\n')
    &&& !line.contains('\u{1b}')
    &&& line.len() > 0 ==> line.last() != '\r'
}

proof fn lemma_ended_plain(lines: Seq<Seq<char>>)
    requires
        forall|i: int| 0 <= i < lines.len() ==> is_plain_line(#[trigger] lines[i]),
    ensures
        text::line_list(uncolored(text::ended(lines, seq!['\n']))) == lines,
{
    let s = text::ended(lines, seq!['\n']);
    let nothing: Seq<char> = seq![];
    lemma_ended_colourless(lines);
    lemma_uncolored_front(s, nothing);
    assert(s + nothing =~= s);
    assert(s + uncolored(nothing) =~= s);
    assert forall|i: int| 0 <= i < lines.len() implies !(#[trigger] lines[i]).contains('\n') && (
    lines[i].len() > 0 ==> lines[i].last() != '\r') by {
        assert(is_plain_line(lines[i]));
    }
    text::law_lines_come_apart_as_they_went_together(lines, nothing, false);
}

proof fn lemma_ended_colourless(lines: Seq<Seq<char>>)
    requires
        forall|i: int| 0 <= i < lines.len() ==> is_plain_line(#[trigger] lines[i]),
    ensures
        !text::ended(lines, seq!['\n']).contains('\u{1b}'),
    decreases lines.len(),
{
    let s = text::ended(lines, seq!['\n']);
    if lines.len() > 0 {
        let rest = lines.drop_first();
        assert forall|i: int| 0 <= i < rest.len() implies is_plain_line(#[trigger] rest[i]) by {
            assert(rest[i] == lines[i + 1]);
        }
        lemma_ended_colourless(rest);
        let tail = text::ended(rest, seq!['\n']);
        assert(is_plain_line(lines[0]));
        if s.contains('\u{1b}') {
            let i = choose|i: int| 0 <= i < s.len() && s[i] == '\u{1b}';
            let n = lines[0].len() as int;
            if i < n {
                assert(lines[0][i] == '\u{1b}');
            } else if i > n {
                assert(tail[i - n - 1] == '\u{1b}');
            }
        }
    }
}

/// What was said is what the last report quotes, to the letter, whatever was printed
/// above it and below it.
pub proof fn law_the_last_report_is_what_was_said(
    above: Seq<Seq<char>>,
    head: Seq<char>,
    said: Seq<char>,
    below: Seq<Seq<char>>,
)
    requires
        text::holds(head, "Transcription completed"@),
        !head.contains('"'),
        forall|i: int| 0 <= i < above.len() ==> is_plain_line(#[trigger] above[i]),
        is_plain_line(head + seq!['"'] + said + seq!['"']),
        forall|i: int|
            0 <= i < below.len() ==> is_plain_line(#[trigger] below[i]) && !text::holds(
                below[i],
                "Transcription completed"@,
            ),
    ensures
        transcript_in(
            text::ended(
                above.push(head + seq!['"'] + said + seq!['"']) + below,
                seq!['\n'],
            ),
        ) == said,
{
    let line = head + seq!['"'] + said + seq!['"'];
    let all = above.push(line) + below;
    let n = above.len() as int;
    assert forall|i: int| 0 <= i < all.len() implies is_plain_line(#[trigger] all[i]) by {
        if i < n {
            assert(all[i] == above[i]);
        } else if i > n {
            assert(all[i] == below[i - n - 1]);
        }
    }
    lemma_ended_plain(all);
    law_a_reported_transcript_is_read_whole(head, said);
    assert(all[n] == line);
    assert forall|j: int| n < j < all.len() implies quoted_transcript(#[trigger] all[j]) is None by {
        assert(all[j] == below[j - n - 1]);
    }
    lemma_last_transcript_is(all, n);
}

proof fn lemma_last_transcript_is(lines: Seq<Seq<char>>, i: int)
    requires
        0 <= i < lines.len(),
        quoted_transcript(lines[i]) is Some,
        forall|j: int| i < j < lines.len() ==> quoted_transcript(#[trigger] lines[j]) is None,
    ensures
        last_transcript(lines) == quoted_transcript(lines[i]),
    decreases lines.len(),
{
    assert(lines.last() == lines[lines.len() - 1]);
    if i < lines.len() - 1 {
        let front = lines.drop_last();
        assert forall|j: int| i < j < front.len() implies quoted_transcript(#[trigger] front[j])
            is None by {
            assert(front[j] == lines[j]);
        }
        assert(front[i] == lines[i]);
        lemma_last_transcript_is(front, i);
    }
}

/// Where nothing is reported, what was said is the last line that holds anything,
/// to the letter, and nothing where no line does.
pub proof fn law_without_a_report_the_last_line_counts(
    above: Seq<Seq<char>>,
    line: Seq<char>,
    below: Seq<Seq<char>>,
)
    requires
        forall|i: int|
            0 <= i < above.len() ==> is_plain_line(#[trigger] above[i]) && !text::holds(
                above[i],
                "Transcription completed"@,
            ),
        is_plain_line(line),
        !text::holds(line, "Transcription completed"@),
        forall|i: int|
            0 <= i < below.len() ==> is_plain_line(#[trigger] below[i]) && text::blank(below[i])
                && !text::holds(below[i], "Transcription completed"@),
    ensures
        !text::blank(line) ==> transcript_in(
            text::ended(above.push(line) + below, seq!['\n']),
        ) == line,
        transcript_in(text::ended(below, seq!['\n'])).len() == 0,
{
    reveal_strlit("");
    let all = above.push(line) + below;
    let n = above.len() as int;
    assert forall|i: int| 0 <= i < all.len() implies is_plain_line(#[trigger] all[i])
        && !text::holds(all[i], "Transcription completed"@) by {
        if i < n {
            assert(all[i] == above[i]);
        } else if i > n {
            assert(all[i] == below[i - n - 1]);
        }
    }
    lemma_ended_plain(all);
    lemma_ended_plain(below);
    lemma_no_transcript(all);
    lemma_no_transcript(below);
    assert(all[n] == line);
    assert forall|j: int| n < j < all.len() implies text::blank(#[trigger] all[j]) by {
        assert(all[j] == below[j - n - 1]);
    }
    if !text::blank(line) {
        lemma_last_line_is(all, n);
    }
    lemma_no_line(below);
}

proof fn lemma_no_transcript(lines: Seq<Seq<char>>)
    requires
        forall|i: int|
            0 <= i < lines.len() ==> !text::holds(
                #[trigger] lines[i],
                "Transcription completed"@,
            ),
    ensures
        last_transcript(lines) is None,
    decreases lines.len(),
{
    if lines.len() > 0 {
        assert(lines.last() == lines[lines.len() - 1]);
        let front = lines.drop_last();
        assert forall|i: int| 0 <= i < front.len() implies !text::holds(
            #[trigger] front[i],
            "Transcription completed"@,
        ) by {
            assert(front[i] == lines[i]);
        }
        lemma_no_transcript(front);
    }
}

proof fn lemma_last_line_is(lines: Seq<Seq<char>>, i: int)
    requires
        0 <= i < lines.len(),
        !text::blank(lines[i]),
        forall|j: int| i < j < lines.len() ==> text::blank(#[trigger] lines[j]),
    ensures
        last_line(lines) == Some(lines[i]),
    decreases lines.len(),
{
    assert(lines.last() == lines[lines.len() - 1]);
    if i < lines.len() - 1 {
        let front = lines.drop_last();
        assert forall|j: int| i < j < front.len() implies text::blank(#[trigger] front[j]) by {
            assert(front[j] == lines[j]);
        }
        assert(front[i] == lines[i]);
        lemma_last_line_is(front, i);
    }
}

proof fn lemma_no_line(lines: Seq<Seq<char>>)
    requires
        forall|i: int| 0 <= i < lines.len() ==> text::blank(#[trigger] lines[i]),
    ensures
        last_line(lines) is None,
    decreases lines.len(),
{
    if lines.len() > 0 {
        assert(lines.last() == lines[lines.len() - 1]);
        let front = lines.drop_last();
        assert forall|i: int| 0 <= i < front.len() implies text::blank(#[trigger] front[i]) by {
            assert(front[i] == lines[i]);
        }
        lemma_no_line(front);
    }
}

/// What goes into the instructions box is what was said. A capture that could not be
/// converted says nothing, and a transcriber that could not be run is told apart
/// from both, with its error.
pub proof fn law_what_was_said_is_passed_on(t: &Transcription, r: String, printed: Seq<char>)
    requires
        call_ensures(spoken_text, (t,), r),
    ensures
        *t is NotConverted ==> r@.len() == 0,
        *t matches Transcription::NotRun(e) ==> e@.is_suffix_of(r@) && r@.len() > e@.len(),
        *t matches Transcription::Printed(out) ==> (out@ == vstd::utf8::encode_utf8(printed) ==> r@
            == transcript_in(printed)),
{
    reveal_strlit("");
    reveal_strlit("__transcribe_error__");
    text::law_valid_text_is_read_unaltered(printed);
    if let Transcription::NotRun(e) = *t {
        assert(e@ =~= r@.subrange(r@.len() - e@.len(), r@.len() as int));
    }
}

/// How loud a capture was is the first line that tells it, without the whitespace
/// around it; a measurement that failed and one that tells nothing are told apart.
pub proof fn law_the_first_measurement_counts(
    above: Seq<Seq<char>>,
    line: Seq<char>,
    below: Seq<Seq<char>>,
)
    requires
        forall|i: int|
            0 <= i < above.len() ==> !(text::holds(#[trigger] above[i], "RMS"@) && text::holds(
                above[i],
                "amplitude"@,
            )),
    ensures
        text::holds(line, "RMS"@) && text::holds(line, "amplitude"@) ==> loudness_in(
            above.push(line) + below,
        ) == Some(text::trimmed(line)),
        loudness_in(above) is None,
        loudness_text(None) != loudness_text(Some(seq![])),
    decreases above.len(),
{
    reveal_strlit("sox stat failed");
    reveal_strlit("no rms line");
    let nothing: Seq<char> = seq![];
    assert(text::line_list(nothing).len() == 0);
    assert("sox stat failed"@.len() != "no rms line"@.len());
    let all = above.push(line) + below;
    if above.len() == 0 {
        assert(all[0] == line);
    } else {
        let rest = above.drop_first();
        assert(all[0] == above[0]);
        assert forall|i: int| 0 <= i < rest.len() implies !(text::holds(#[trigger] rest[i], "RMS"@)
            && text::holds(rest[i], "amplitude"@)) by {
            assert(rest[i] == above[i + 1]);
        }
        law_the_first_measurement_counts(rest, line, below);
        assert(all.drop_first() =~= rest.push(line) + below);
    }
}

proof fn lemma_uncolored_plain(s: Seq<char>)
    ensures
        !uncolored(s).contains('\u{1b}'),
    decreases s.len(),
{
    if s.len() > 0 {
        let rest = s.drop_first();
        if s[0] == '\u{1b}' {
            lemma_after_m(rest);
            lemma_uncolored_plain(after_m(rest));
            assert(uncolored(s) == uncolored(after_m(rest)));
        } else {
            lemma_uncolored_plain(rest);
            let out = uncolored(s);
            assert(out == seq![s[0]] + uncolored(rest));
            if out.contains('\u{1b}') {
                let i = choose|i: int| 0 <= i < out.len() && out[i] == '\u{1b}';
                assert(uncolored(rest)[i - 1] == '\u{1b}');
            }
        }
    }
}

/// Colours make no difference to what was said: a text and the same text without its
/// colours say the same, and none is left.
pub proof fn law_colours_say_nothing(stdout: Seq<char>)
    ensures
        transcript_in(stdout) == transcript_in(uncolored(stdout)),
        !uncolored(stdout).contains('\u{1b}'),
{
    let plain = uncolored(stdout);
    let nothing: Seq<char> = seq![];
    lemma_uncolored_plain(stdout);
    lemma_uncolored_front(plain, nothing);
    assert(plain + nothing =~= plain);
    assert(plain + uncolored(nothing) =~= plain);
}

/// A colour that is never ended takes the rest with it, and nothing before it.
pub proof fn law_an_unended_colour_takes_the_rest(before: Seq<char>, rest: Seq<char>)
    requires
        !before.contains('\u{1b}'),
        !rest.contains('m'),
    ensures
        uncolored(before + seq!['\u{1b}'] + rest) == before,
{
    let tail = seq!['\u{1b}'] + rest;
    assert(before + seq!['\u{1b}'] + rest =~= before + tail);
    lemma_uncolored_front(before, tail);
    assert(tail.drop_first() =~= rest);
    lemma_no_m(rest);
    assert(after_m(rest) =~= Seq::<char>::empty());
    assert(uncolored(Seq::<char>::empty()).len() == 0);
    assert(before + uncolored(tail) =~= before);
}

proof fn lemma_no_m(s: Seq<char>)
    requires
        !s.contains('m'),
    ensures
        after_m(s).len() == 0,
    decreases s.len(),
{
    if s.len() > 0 {
        assert(s.contains(s[0]));
        let tail = s.drop_first();
        assert forall|i: int| 0 <= i < tail.len() implies #[trigger] tail[i] != 'm' by {
            assert(tail[i] == s[i + 1]);
            assert(s.contains(s[i + 1]));
        }
        lemma_no_m(tail);
    }
}

/// A report may go on behind the quote that ends the transcript, and one without two
/// quotes reports nothing.
pub proof fn law_a_report_ends_at_its_last_quote(
    head: Seq<char>,
    said: Seq<char>,
    tail: Seq<char>,
)
    requires
        !head.contains('"'),
        !tail.contains('"'),
    ensures
        text::holds(head, "Transcription completed"@) ==> quoted_transcript(
            head + seq!['"'] + said + seq!['"'] + tail,
        ) == Some(said),
        quoted_transcript(head) is None,
        quoted_transcript(head + seq!['"'] + tail) is None,
{
    let line = head + seq!['"'] + said + seq!['"'] + tail;
    let h = head.len() as int;
    let e = h + 1 + said.len();
    if text::holds(head, "Transcription completed"@) {
        let pat = "Transcription completed"@;
        let i = choose|i: int| text::occurs_at(head, pat, i);
        assert(line.subrange(i, i + pat.len()) =~= head.subrange(i, i + pat.len()));
        assert(text::occurs_at(line, pat, i));
    }
    assert forall|j: int| 0 <= j < h implies #[trigger] line[j] != '"' by {
        assert(line[j] == head[j]);
        assert(head.contains(head[j]));
    }
    assert(line[h] == '"');
    text::lemma_index_or_len_is(line, '"', h);
    assert(line[e] == '"');
    assert forall|j: int| e < j < line.len() implies #[trigger] line[j] != '"' by {
        assert(line[j] == tail[j - e - 1]);
        assert(tail.contains(tail[j - e - 1]));
    }
    lemma_last_index_is(line, '"', e);
    assert(line.subrange(h + 1, e) =~= said);
    let one = head + seq!['"'] + tail;
    assert forall|j: int| 0 <= j < h implies #[trigger] one[j] != '"' by {
        assert(one[j] == head[j]);
        assert(head.contains(head[j]));
    }
    assert(one[h] == '"');
    text::lemma_index_or_len_is(one, '"', h);
    assert forall|j: int| h < j < one.len() implies #[trigger] one[j] != '"' by {
        assert(one[j] == tail[j - h - 1]);
        assert(tail.contains(tail[j - h - 1]));
    }
    lemma_last_index_is(one, '"', h);
    lemma_no_last_index(head, '"');
}

proof fn lemma_last_index_is(s: Seq<char>, c: char, i: int)
    requires
        0 <= i < s.len(),
        s[i] == c,
        forall|j: int| i < j < s.len() ==> #[trigger] s[j] != c,
    ensures
        last_index(s, c) == Some(i),
    decreases s.len(),
{
    if i < s.len() - 1 {
        let front = s.drop_last();
        assert(s[s.len() - 1] != c);
        assert forall|j: int| i < j < front.len() implies #[trigger] front[j] != c by {
            assert(front[j] == s[j]);
        }
        lemma_last_index_is(front, c, i);
    }
}

proof fn lemma_no_last_index(s: Seq<char>, c: char)
    requires
        !s.contains(c),
    ensures
        last_index(s, c) is None,
    decreases s.len(),
{
    if s.len() > 0 {
        let front = s.drop_last();
        assert(s.contains(s[s.len() - 1]));
        assert forall|j: int| 0 <= j < front.len() implies #[trigger] front[j] != c by {
            assert(front[j] == s[j]);
            assert(s.contains(s[j]));
        }
        lemma_no_last_index(front, c);
    }
}

/// What is kept of a capture tells both sizes, how loud it was and what was said, each
/// to the letter; its files are kept under the second of the capture, the converted one
/// where it holds anything.
pub proof fn law_a_capture_is_kept_as_it_was(
    raw_bytes: u64,
    wav_bytes: u64,
    measured: &str,
    said: &str,
    log: String,
    converted: bool,
    stamp: u64,
    extension: &str,
    name: String,
    home: bool,
    place: Option<Place>,
)
    requires
        call_ensures(capture_log, (raw_bytes, wav_bytes, measured, said), log),
        call_ensures(keeps_converted, (wav_bytes,), converted),
        call_ensures(kept_name, (stamp, extension), name),
        call_ensures(captures_path, (home,), place),
    ensures
        text::occurs_at(
            log@,
            "raw="@ + text::decimal(raw_bytes as nat) + "B wav="@ + text::decimal(wav_bytes as nat)
                + "B\n"@,
            0,
        ),
        text::holds(log@, "\n"@ + measured@ + "\n"@),
        (said@ + "\n"@).is_suffix_of(log@),
        converted <==> wav_bytes > 0,
        ("."@ + extension@).is_suffix_of(name@),
        text::holds(name@, text::decimal(stamp as nat)),
        place is Some <==> home,
{
    reveal_strlit("\n");
    reveal_strlit("B\n");
    reveal_strlit("\ntext: ");
    let head = "raw="@ + text::decimal(raw_bytes as nat) + "B wav="@ + text::decimal(
        wav_bytes as nat,
    ) + "B\n"@;
    assert(log@.subrange(0, head.len() as int) =~= head);
    let mid = "\n"@ + measured@ + "\n"@;
    let n = head.len() - 1;
    assert(log@.subrange(n, n + mid.len()) =~= mid);
    assert(text::occurs_at(log@, mid, n));
    let end = said@ + "\n"@;
    assert(end =~= log@.subrange(log@.len() - end.len(), log@.len() as int));
    let d = text::decimal(stamp as nat);
    let v = "voice-"@.len() as int;
    assert(name@.subrange(v, v + d.len()) =~= d);
    assert(text::occurs_at(name@, d, v));
    let ext = "."@ + extension@;
    assert(ext =~= name@.subrange(name@.len() - ext.len(), name@.len() as int));
}

} // verus!
