//! The clipboard valet: park the image that was on the clipboard, and get it
//! back on demand.
//!
//! After a paste the clipboard keeps serving the transcript, so every reader,
//! however late, gets text. An image that was there before is parked in a file
//! and put back by one explicit command. Text is never parked: what the
//! clipboard holds after a dictation is text anyway.

use vstd::prelude::*;

use crate::date;
use crate::focus::Output;
use crate::place::{Base, Place};
use crate::text;

verus! {

/// The directory that things are parked in.
pub const PARK_DIR: &'static str = "park";

/// The file that an image is parked in.
pub const PARK_FILE: &'static str = "parkedImage.png";

/// The file that tells when an image was parked.
pub const PARK_META: &'static str = "parked.txt";

/// The file that every decision to park is noted in.
pub const PARK_LOG: &'static str = "valet-watch.log";

/// Where things are parked, given which of `$XDG_STATE_HOME` and `$HOME` are
/// set.
pub fn state_dir(state_home: bool, home: bool) -> (r: Option<Place>)
    ensures
        match r {
            Some(p) => {
                &&& state_home || home
                &&& state_home ==> p.base == Base::StateHome && p.below@ == "voxtype-review/park"@
                &&& !state_home ==> p.base == Base::Home && p.below@
                    == ".local/state/voxtype-review/park"@
            },
            None => !state_home && !home,
        },
{
    if state_home {
        return Some(Place { base: Base::StateHome, below: "voxtype-review/park" });
    }
    if home {
        return Some(Place { base: Base::Home, below: ".local/state/voxtype-review/park" });
    }
    None
}

/// What a clipboard command printed, or nothing where it failed: a parking
/// problem must never break a dictation.
pub fn printed(output: Option<Output>) -> (r: Vec<u8>)
    ensures
        match output {
            Some(o) => if o.success {
                r@ == o.stdout@
            } else {
                r@.len() == 0
            },
            None => r@.len() == 0,
        },
{
    match output {
        Some(o) => {
            if o.success {
                o.stdout
            } else {
                Vec::new()
            }
        },
        None => Vec::new(),
    }
}

/// One line of the log.
pub open spec fn is_log_line(line: Seq<char>, secs: int, message: Seq<char>) -> bool {
    exists|stamp: Seq<char>|
        #[trigger] date::is_stamp(stamp, secs) && line == "["@ + stamp + "] "@ + message + "\n"@
}

/// One line of the log.
pub fn log_line(secs: u64, message: &str) -> (r: String)
    ensures
        is_log_line(r@, secs as int, message@),
{
    let stamp = date::stamp(secs);
    let mut r = "[".to_string();
    r.append(stamp.as_str());
    r.append("] ");
    r.append(message);
    r.append("\n");
    assert(date::is_stamp(stamp@, secs as int));
    r
}

/// The targets of a clipboard that holds an image.
pub open spec fn offers_image(targets: Seq<char>) -> bool {
    text::holds(targets, "image/"@)
}

/// Whether the clipboard holds an image, given the targets it serves.
pub fn clipboard_holds_image(targets: &[u8]) -> (r: bool)
    ensures
        r == offers_image(text::as_read(targets@)),
{
    let t = text::read_bytes(targets);
    text::contains(t.as_str(), "image/")
}

/// The targets on one line.
pub open spec fn on_one_line(targets: Seq<char>) -> Seq<char> {
    targets.map_values(
        |c: char|
            if c == '\n' {
                ','
            } else {
                c
            },
    )
}

/// What is noted when the clipboard was looked at.
pub fn check_message(holds_image: bool, targets: &[u8]) -> (r: String)
    ensures
        r@ == "park check: holds_image="@ + (if holds_image {
            "true"@
        } else {
            "false"@
        }) + " targets=["@ + on_one_line(text::as_read(targets@)) + "]"@,
{
    let mut r = "park check: holds_image=".to_string();
    if holds_image {
        r.append("true");
    } else {
        r.append("false");
    }
    r.append(" targets=[");
    let t = text::read_bytes(targets);
    let v = text::chars_of(t.as_str());
    let ghost head = r@;
    let ghost line = on_one_line(v@);
    let mut i: usize = 0;
    assert(r@ =~= head + line.take(0));
    while i < v.len()
        invariant
            i <= v@.len(),
            line == on_one_line(v@),
            r@ == head + line.take(i as int),
        decreases v@.len() - i,
    {
        let c: char = v[i];
        if c == '\n' {
            r.push(',');
        } else {
            r.push(c);
        }
        assert(line.take(i + 1) =~= line.take(i as int).push(line[i as int]));
        assert(r@ =~= head + line.take(i + 1));
        i = i + 1;
    }
    assert(line.take(i as int) =~= line);
    r.append("]");
    r
}

/// Whether an image is to be read from the clipboard: where there is one, and a
/// place to park it.
pub fn park(targets: &[u8], place: bool) -> (r: bool)
    ensures
        r == (offers_image(text::as_read(targets@)) && place),
{
    clipboard_holds_image(targets) && place
}

/// What is written beside an image that was parked.
pub open spec fn is_park_note(note: Seq<char>, secs: int, bytes: nat) -> bool {
    exists|stamp: Seq<char>|
        #[trigger] date::is_stamp(stamp, secs) && note == "parked="@ + stamp + " bytes="@
            + text::decimal(bytes) + " via=T-023-valet\n"@
}

/// What is written beside an image that is parked, where there is anything to
/// park.
pub fn park_note(secs: u64, png: &[u8]) -> (r: Option<String>)
    ensures
        match r {
            Some(note) => png@.len() > 0 && is_park_note(note@, secs as int, png@.len()),
            None => png@.len() == 0,
        },
{
    let n: usize = png.len();
    if n == 0 {
        return None;
    }
    let stamp = date::stamp(secs);
    let mut r = "parked=".to_string();
    r.append(stamp.as_str());
    r.append(" bytes=");
    r.append(text::to_decimal(n as u128).as_str());
    r.append(" via=T-023-valet\n");
    assert(date::is_stamp(stamp@, secs as int));
    Some(r)
}

/// Whether there is an image to put back, given what the park holds. An empty
/// park is the honest answer to a second request.
pub fn unpark(parked: Option<&[u8]>) -> (r: bool)
    ensures
        r == (match parked {
            Some(png) => png@.len() > 0,
            None => false,
        }),
{
    match parked {
        Some(png) => {
            let n: usize = png.len();
            n > 0
        },
        None => false,
    }
}

/// How a request to put the image back is answered.
pub fn unpark_report(restored: Option<&str>) -> (r: String)
    ensures
        r@ == (match restored {
            Some(p) => "restored parked clipboard image from "@ + p@,
            None => "nothing parked"@,
        }),
{
    match restored {
        Some(p) => {
            let mut r = "restored parked clipboard image from ".to_string();
            r.append(p);
            r
        },
        None => "nothing parked".to_string(),
    }
}

/// The name of the script that watches the clipboard, beside the program.
pub const WATCH_SCRIPT: &'static str = "valet-watch.py";

/// How long the watcher watches, in seconds.
pub const WATCH_SECONDS: &'static str = "60";

/// What the operator is told when an image was parked.
pub const PARKED_NOTICE: &'static str = "screenshot parked — voxtype-review --unpark restores it";

/// Where the script is looked for in a source tree, from the current directory.
pub open spec fn script_path(attempt: int) -> Seq<char>
    decreases attempt,
{
    if attempt <= 0 {
        "spikes/lib/valet-watch.py"@
    } else {
        "spikes/"@ + script_path(attempt - 1)
    }
}

/// Where the script is looked for in a source tree, from the current directory,
/// in order.
pub fn script_candidates() -> (r: Vec<String>)
    ensures
        text::texts(r@) == seq![script_path(0), script_path(1), script_path(2)],
{
    let mut r: Vec<String> = Vec::new();
    let mut i: usize = 0;
    let ghost want = seq![script_path(0), script_path(1), script_path(2)];
    assert(text::texts(r@) =~= want.take(0));
    while i < 3
        invariant
            i <= 3,
            want == seq![script_path(0), script_path(1), script_path(2)],
            text::texts(r@) == want.take(i as int),
        decreases 3 - i,
    {
        let ghost before = text::texts(r@);
        let p = candidate(i);
        r.push(p);
        assert(text::texts(r@) =~= before.push(want[i as int]));
        assert(want.take(i + 1) =~= want.take(i as int).push(want[i as int]));
        i = i + 1;
    }
    assert(want.take(3) =~= want);
    r
}

fn candidate(attempt: usize) -> (r: String)
    ensures
        r@ == script_path(attempt as int),
    decreases attempt,
{
    if attempt == 0 {
        return "spikes/lib/valet-watch.py".to_string();
    }
    let mut r = "spikes/".to_string();
    r.append(candidate(attempt - 1).as_str());
    r
}

// ---------------------------------------------------------------------------
// What the valet can be relied on for
// ---------------------------------------------------------------------------

/// An image is parked exactly where the clipboard serves one and there is a place
/// for it: one target that names an image is enough, wherever it stands.
pub proof fn law_an_image_is_parked(
    front: Seq<char>,
    behind: Seq<char>,
    targets: &[u8],
    place: bool,
    parks: bool,
    holds: bool,
)
    requires
        call_ensures(park, (targets, place), parks),
        call_ensures(clipboard_holds_image, (targets,), holds),
    ensures
        parks <==> holds && place,
        targets@ == vstd::utf8::encode_utf8(front + "image/"@ + behind) ==> holds,
        targets@ == vstd::utf8::encode_utf8(front) ==> (holds <==> text::holds(front, "image/"@)),
{
    let s = front + "image/"@ + behind;
    text::law_valid_text_is_read_unaltered(s);
    text::law_valid_text_is_read_unaltered(front);
    let n = front.len() as int;
    assert(s.subrange(n, n + "image/"@.len()) =~= "image/"@);
    assert(text::occurs_at(s, "image/"@, n));
}

/// What a command printed is taken over byte by byte, and nothing is where it failed.
/// There is something to put back exactly where the park holds a byte, and something
/// to note exactly where there is something to park.
pub proof fn law_what_is_parked_is_what_was_printed(
    output: Option<Output>,
    printed_bytes: Vec<u8>,
    png: &[u8],
    secs: u64,
    note: Option<String>,
    restores: bool,
)
    requires
        call_ensures(printed, (output,), printed_bytes),
        call_ensures(park_note, (secs, png), note),
        call_ensures(unpark, (Some(png),), restores),
    ensures
        output matches Some(o) ==> (o.success ==> printed_bytes@ == o.stdout@),
        output matches Some(o) ==> (!o.success ==> printed_bytes@.len() == 0),
        output is None ==> printed_bytes@.len() == 0,
        note is Some <==> png@.len() > 0,
        restores <==> png@.len() > 0,
        note matches Some(t) ==> text::holds(t@, " bytes="@ + text::decimal(png@.len()) + " "@),
{
    if let Some(t) = note {
        let stamp = choose|stamp: Seq<char>|
            #[trigger] date::is_stamp(stamp, secs as int) && t@ == "parked="@ + stamp + " bytes="@
                + text::decimal(png@.len()) + " via=T-023-valet\n"@;
        reveal_strlit(" via=T-023-valet\n");
        reveal_strlit(" ");
        let pat = " bytes="@ + text::decimal(png@.len()) + " "@;
        let n = ("parked="@ + stamp).len() as int;
        assert(t@.subrange(n, n + pat.len()) =~= pat);
        assert(text::occurs_at(t@, pat, n));
    }
}

/// The targets are noted on one line: every newline becomes a comma, and nothing else
/// changes.
pub proof fn law_targets_are_noted_on_one_line(targets: Seq<char>, i: int)
    requires
        0 <= i < targets.len(),
    ensures
        on_one_line(targets).len() == targets.len(),
        targets[i] == '\n' ==> on_one_line(targets)[i] == ',',
        targets[i] != '\n' ==> on_one_line(targets)[i] == targets[i],
{
}

/// A line of the log holds the message, to the letter, behind the time in brackets,
/// and ends the line.
pub proof fn law_a_log_line_holds_its_message(secs: u64, message: &str, r: String)
    requires
        call_ensures(log_line, (secs, message), r),
    ensures
        (message@ + "\n"@).is_suffix_of(r@),
        r@[0] == '[',
        exists|stamp: Seq<char>|
            #[trigger] date::is_stamp(stamp, secs as int) && text::occurs_at(
                r@,
                "["@ + stamp + "] "@,
                0,
            ),
{
    reveal_strlit("[");
    reveal_strlit("\n");
    let stamp = choose|stamp: Seq<char>|
        #[trigger] date::is_stamp(stamp, secs as int) && r@ == "["@ + stamp + "] "@ + message@
            + "\n"@;
    let tail = message@ + "\n"@;
    assert(tail =~= r@.subrange(r@.len() - tail.len(), r@.len() as int));
    let head = "["@ + stamp + "] "@;
    assert(r@.subrange(0, head.len() as int) =~= head);
    assert(date::is_stamp(stamp, secs as int));
}

/// What is noted of a look at the clipboard says what was found and lists every target
/// that was served.
pub proof fn law_a_look_is_noted(holds_image: bool, targets: &[u8], served: Seq<char>, r: String)
    requires
        call_ensures(check_message, (holds_image, targets), r),
        targets@ == vstd::utf8::encode_utf8(served),
    ensures
        holds_image ==> text::holds(r@, "holds_image=true "@),
        !holds_image ==> text::holds(r@, "holds_image=false "@),
        ("["@ + on_one_line(served) + "]"@).is_suffix_of(r@),
{
    text::law_valid_text_is_read_unaltered(served);
    reveal_strlit("park check: holds_image=");
    reveal_strlit(" targets=[");
    reveal_strlit("[");
    reveal_strlit("true");
    reveal_strlit("false");
    reveal_strlit("holds_image=true ");
    reveal_strlit("holds_image=false ");
    if holds_image {
        assert(r@.subrange(12, 29) =~= "holds_image=true "@);
        assert(text::occurs_at(r@, "holds_image=true "@, 12));
    } else {
        assert(r@.subrange(12, 30) =~= "holds_image=false "@);
        assert(text::occurs_at(r@, "holds_image=false "@, 12));
    }
    let end = "["@ + on_one_line(served) + "]"@;
    assert(end =~= r@.subrange(r@.len() - end.len(), r@.len() as int));
}

/// A request to put the image back is answered with where it came from, and nothing is
/// put back where nothing was parked.
pub proof fn law_an_image_that_is_put_back_is_told(
    restored: Option<&str>,
    r: String,
    empty: bool,
)
    requires
        call_ensures(unpark_report, (restored,), r),
        call_ensures(unpark, (None,), empty),
    ensures
        restored matches Some(p) ==> p@.is_suffix_of(r@) && text::holds(r@, "restored"@),
        restored is None ==> text::holds(r@, "nothing parked"@),
        !empty,
{
    match restored {
        Some(p) => {
            reveal_strlit("restored parked clipboard image from ");
            reveal_strlit("restored");
            assert(p@ =~= r@.subrange(r@.len() - p@.len(), r@.len() as int));
            assert(r@.subrange(0, 8) =~= "restored"@);
            assert(text::occurs_at(r@, "restored"@, 0));
        },
        None => {
            assert(r@.subrange(0, r@.len() as int) =~= r@);
            assert(text::occurs_at(r@, "nothing parked"@, 0));
        },
    }
}

/// Things are parked in the state directory where one is set, below the home directory
/// otherwise, and nowhere without either; the park is the same one below both.
pub proof fn law_there_is_one_park(state_home: bool, home: bool, r: Option<Place>)
    requires
        call_ensures(state_dir, (state_home, home), r),
    ensures
        r is Some <==> state_home || home,
        r matches Some(p) ==> (p.base == Base::StateHome <==> state_home) && (p.base == Base::Home
            <==> !state_home) && "voxtype-review/park"@.is_suffix_of(p.below@),
{
    reveal_strlit("voxtype-review/park");
    reveal_strlit(".local/state/voxtype-review/park");
    if let Some(p) = r {
        let end = "voxtype-review/park"@;
        assert(end =~= p.below@.subrange(p.below@.len() - end.len(), p.below@.len() as int));
    }
}

/// The script is looked for under its own name, deeper in the tree with every attempt.
pub proof fn law_the_script_is_looked_for_by_name(r: Vec<String>, i: int)
    requires
        call_ensures(script_candidates, (), r),
        0 <= i < r@.len(),
    ensures
        r@.len() == 3,
        "lib/valet-watch.py"@.is_suffix_of(r@[i]@),
        "spikes/"@.is_prefix_of(r@[i]@),
        r@[i]@.len() == "spikes/lib/valet-watch.py"@.len() + 7 * i,
{
    assert(text::texts(r@).len() == 3);
    assert(text::texts(r@)[i] == r@[i]@);
    lemma_script_path(i);
}

proof fn lemma_script_path(attempt: int)
    requires
        0 <= attempt,
    ensures
        "lib/valet-watch.py"@.is_suffix_of(script_path(attempt)),
        "spikes/"@.is_prefix_of(script_path(attempt)),
        script_path(attempt).len() == "spikes/lib/valet-watch.py"@.len() + 7 * attempt,
    decreases attempt,
{
    reveal_strlit("lib/valet-watch.py");
    reveal_strlit("spikes/");
    reveal_strlit("spikes/lib/valet-watch.py");
    let p = script_path(attempt);
    let end = "lib/valet-watch.py"@;
    let head = "spikes/"@;
    if attempt > 0 {
        lemma_script_path(attempt - 1);
        let rest = script_path(attempt - 1);
        assert(end == rest.subrange(rest.len() - end.len(), rest.len() as int));
    }
    assert(end =~= p.subrange(p.len() - end.len(), p.len() as int));
    assert(head =~= p.subrange(0, head.len() as int));
}

} // verus!
