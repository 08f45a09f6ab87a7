//! Setting one key in a TOML file that is mostly comments.
//!
//! Targeted line replacement, never serialise-and-rewrite: the comments are the
//! documentation, and a rewrite would lose them.

use vstd::prelude::*;

use crate::text;

verus! {

// ---------------------------------------------------------------------------
// Lines as they stand in the file
// ---------------------------------------------------------------------------

/// `s` ends with a newline.
pub open spec fn ends_line(s: Seq<char>) -> bool {
    s.len() > 0 && s.last() == '\n'
}

/// The lines of `s` without their newlines. A carriage return before a newline
/// stays with its line.
pub open spec fn raw_lines(s: Seq<char>) -> Seq<Seq<char>> {
    let parts = text::pieces(s, '\n');
    if parts.last().len() == 0 {
        parts.drop_last()
    } else {
        parts
    }
}

/// The lines put together again, the last one ended like the last one of
/// `model`.
pub open spec fn unlines(lines: Seq<Seq<char>>, model: Seq<char>) -> Seq<char> {
    text::joined(lines, seq!['\n']) + (if ends_line(model) {
        seq!['\n']
    } else {
        seq![]
    })
}

// ---------------------------------------------------------------------------
// Reading lines
// ---------------------------------------------------------------------------

/// A trimmed line that opens a table.
pub open spec fn is_header(t: Seq<char>) -> bool {
    t.len() > 0 && t[0] == '[' && t.last() == ']'
}

/// `c` is a bracket.
pub open spec fn is_bracket(c: char) -> bool {
    c == '[' || c == ']'
}

/// `s` without its leading brackets.
pub open spec fn without_leading_brackets(s: Seq<char>) -> Seq<char>
    decreases s.len(),
{
    if s.len() > 0 && is_bracket(s[0]) {
        without_leading_brackets(s.drop_first())
    } else {
        s
    }
}

/// `s` without its trailing brackets.
pub open spec fn without_trailing_brackets(s: Seq<char>) -> Seq<char>
    decreases s.len(),
{
    if s.len() > 0 && is_bracket(s.last()) {
        without_trailing_brackets(s.drop_last())
    } else {
        s
    }
}

/// The name of the table a header opens.
pub open spec fn header_name(t: Seq<char>) -> Seq<char> {
    without_trailing_brackets(without_leading_brackets(t))
}

/// A trimmed line that assigns to `key`: not a header, not a comment, and `=`
/// follows the key.
pub open spec fn is_assignment(t: Seq<char>, key: Seq<char>) -> bool {
    &&& !is_header(t)
    &&& !(t.len() > 0 && t[0] == '#')
    &&& text::occurs_at(t, key, 0)
    &&& ({
        let rest = text::trimmed_start(t.skip(key.len() as int));
        rest.len() > 0 && rest[0] == '='
    })
}

/// The table that the line at `i` stands in: the one opened by the last header
/// before it, with no name where there is none.
pub open spec fn table_at(lines: Seq<Seq<char>>, i: int) -> Seq<char>
    decreases i,
{
    if i <= 0 {
        seq![]
    } else if is_header(text::trimmed(lines[i - 1])) {
        header_name(text::trimmed(lines[i - 1]))
    } else {
        table_at(lines, i - 1)
    }
}

/// The line at `i` assigns to `key` in `table`.
pub open spec fn assigns_at(lines: Seq<Seq<char>>, table: Seq<char>, key: Seq<char>, i: int) -> bool {
    table_at(lines, i) == table && is_assignment(text::trimmed(lines[i]), key)
}

/// The first line from `i` on that assigns to `key` in `table`.
pub open spec fn assignment_from(
    lines: Seq<Seq<char>>,
    table: Seq<char>,
    key: Seq<char>,
    i: int,
) -> Option<int>
    decreases lines.len() - i,
{
    if i >= lines.len() {
        None
    } else if assigns_at(lines, table, key, i) {
        Some(i)
    } else {
        assignment_from(lines, table, key, i + 1)
    }
}

/// The line at `i` opens `table`.
pub open spec fn opens_at(lines: Seq<Seq<char>>, table: Seq<char>, i: int) -> bool {
    is_header(text::trimmed(lines[i])) && header_name(text::trimmed(lines[i])) == table
}

/// The last line before `n` that opens `table`.
pub open spec fn header_before(lines: Seq<Seq<char>>, table: Seq<char>, n: int) -> Option<int>
    decreases n,
{
    if n <= 0 {
        None
    } else if opens_at(lines, table, n - 1) {
        Some(n - 1)
    } else {
        header_before(lines, table, n - 1)
    }
}

// ---------------------------------------------------------------------------
// The edit
// ---------------------------------------------------------------------------

/// The whitespace that `line` starts with.
pub open spec fn indent(line: Seq<char>) -> Seq<char> {
    line.take(line.len() - text::trimmed_start(line).len())
}

/// The carriage return that belongs to the ending of the line at `i`.
pub open spec fn line_cr(lines: Seq<Seq<char>>, i: int, ended: bool) -> Seq<char> {
    if (i + 1 < lines.len() || ended) && lines[i].len() > 0 && lines[i].last() == '\r' {
        seq!['\r']
    } else {
        seq![]
    }
}

/// The assignment that is written.
pub open spec fn assignment(key: Seq<char>, literal: Seq<char>) -> Seq<char> {
    key + " = "@ + literal
}

/// The line that takes the place of the line at `i`.
pub open spec fn replacement(
    lines: Seq<Seq<char>>,
    i: int,
    ended: bool,
    key: Seq<char>,
    literal: Seq<char>,
) -> Seq<char> {
    indent(lines[i]) + assignment(key, literal) + line_cr(lines, i, ended)
}

/// The lines after the edit: the first assignment to the key in the table
/// replaced; or, where there is none, an assignment below the last header of
/// the table; or, where there is none of those either, the table appended.
pub open spec fn edited_lines(
    lines: Seq<Seq<char>>,
    ended: bool,
    table: Seq<char>,
    key: Seq<char>,
    literal: Seq<char>,
) -> Seq<Seq<char>> {
    match assignment_from(lines, table, key, 0) {
        Some(i) => lines.update(i, replacement(lines, i, ended, key, literal)),
        None => match header_before(lines, table, lines.len() as int) {
            Some(h) => lines.insert(h + 1, assignment(key, literal)),
            None => lines.push(seq![]).push("["@ + table + "]"@).push(assignment(key, literal)),
        },
    }
}

/// The file with `key` in `table` set to `literal`.
pub open spec fn with_key(
    file: Seq<char>,
    table: Seq<char>,
    key: Seq<char>,
    literal: Seq<char>,
) -> Seq<char> {
    unlines(edited_lines(raw_lines(file), ends_line(file), table, key, literal), file)
}

fn bracket_free(t: &str) -> (r: String)
    ensures
        r@ == header_name(t@),
{
    let v = text::chars_of(t);
    let mut a: usize = 0;
    let mut b: usize = v.len();
    assert(v@.skip(0) =~= v@);
    while a < b && (v[a] == '[' || v[a] == ']')
        invariant
            a <= b,
            b == v@.len(),
            v@ == t@,
            without_leading_brackets(t@) == without_leading_brackets(v@.skip(a as int)),
        decreases b - a,
    {
        assert(v@.skip(a as int).drop_first() =~= v@.skip(a + 1));
        a = a + 1;
    }
    let ghost front = v@.skip(a as int);
    assert(without_leading_brackets(front) == front);
    assert(v@.subrange(a as int, b as int) =~= front);
    while b > a && (v[b - 1] == '[' || v[b - 1] == ']')
        invariant
            a <= b <= v@.len(),
            without_trailing_brackets(front) == without_trailing_brackets(
                v@.subrange(a as int, b as int),
            ),
        decreases b - a,
    {
        assert(v@.subrange(a as int, b as int).drop_last() =~= v@.subrange(a as int, b - 1));
        b = b - 1;
    }
    let ghost middle = v@.subrange(a as int, b as int);
    assert(without_trailing_brackets(middle) == middle);
    text::string_of(&v, a, b)
}

fn header(t: &str) -> (r: bool)
    ensures
        r == is_header(t@),
{
    let v = text::chars_of(t);
    v.len() > 0 && v[0] == '[' && v[v.len() - 1] == ']'
}

fn assigns(t: &str, key: &str) -> (r: bool)
    ensures
        r == is_assignment(t@, key@),
{
    if header(t) {
        return false;
    }
    let v = text::chars_of(t);
    if v.len() > 0 && v[0] == '#' {
        return false;
    }
    if !text::starts_with(t, key) {
        return false;
    }
    let k = text::chars_of(key);
    let n: usize = v.len();
    let rest = text::string_of(&v, k.len(), n);
    assert(rest@ =~= t@.skip(key@.len() as int));
    let tail = text::trim_start(rest.as_str());
    let w = text::chars_of(tail.as_str());
    w.len() > 0 && w[0] == '='
}

fn assign(key: &str, literal: &str) -> (r: String)
    ensures
        r@ == assignment(key@, literal@),
{
    let mut line = key.to_string();
    line.append(" = ");
    line.append(literal);
    line
}

fn indent_of(line: &str) -> (r: String)
    ensures
        r@ == indent(line@),
{
    let v = text::chars_of(line);
    let rest = text::trim_start(line);
    let w = text::chars_of(rest.as_str());
    proof {
        let k = text::lemma_trimmed_start_cut(line@);
    }
    let cut: usize = v.len() - w.len();
    assert(v@.subrange(0, cut as int) =~= v@.take(cut as int));
    text::string_of(&v, 0, cut)
}

fn file_lines(file: &str) -> (r: (Vec<String>, bool))
    ensures
        text::texts(r.0@) == raw_lines(file@),
        r.1 == ends_line(file@),
{
    let v = text::chars_of(file);
    let ended = v.len() > 0 && v[v.len() - 1] == '\n';
    let mut lines = text::split(file, '\n');
    let ghost parts = text::texts(lines@);
    proof {
        lemma_pieces_not_empty(file@, '\n');
    }
    let n: usize = lines.len();
    assert(parts.last() == lines@[n - 1]@);
    if lines[n - 1].as_str().is_empty() {
        lines.pop();
        assert(text::texts(lines@) =~= parts.drop_last());
    }
    (lines, ended)
}

proof fn lemma_pieces_not_empty(s: Seq<char>, c: char)
    ensures
        text::pieces(s, c).len() > 0,
{
}

fn finish(lines: &Vec<String>, ended: bool) -> (r: String)
    ensures
        r@ == text::joined(text::texts(lines@), seq!['\n']) + (if ended {
            seq!['\n']
        } else {
            seq![]
        }),
{
    proof {
        reveal_strlit("\n");
    }
    assert("\n"@ =~= seq!['\n']);
    let mut out = text::join(lines, "\n");
    if ended {
        let ghost before = out@;
        out.push('\n');
        assert(out@ =~= before + seq!['\n']);
    } else {
        assert(out@ =~= out@ + Seq::<char>::empty());
    }
    out
}

/// Replace one key's line in one table, leaving every other byte alone.
///
/// The walk tracks the current table header, so that `key` in one table is not
/// confused with the same `key` in another. A commented-out key is treated as
/// absent, and the new line is inserted just after the table header, where it
/// reads next to the comment that documents it.
pub fn set_key(file: &str, table: &str, key: &str, literal: &str) -> (r: String)
    ensures
        r@ == with_key(file@, table@, key@, literal@),
{
    let (mut lines, ended) = file_lines(file);
    let ghost all = raw_lines(file@);
    let n: usize = lines.len();
    let mut current = String::new();
    let mut header_at: Option<usize> = None;
    let mut i: usize = 0;
    assert(current@ =~= seq![]);
    while i < n
        invariant
            i <= n,
            n == lines@.len(),
            n == all.len(),
            all == raw_lines(file@),
            all == text::texts(lines@),
            ended == ends_line(file@),
            current@ == table_at(all, i as int),
            assignment_from(all, table@, key@, 0) == assignment_from(all, table@, key@, i as int),
            match header_at {
                Some(h) => h < i && header_before(all, table@, i as int) == Some(h as int),
                None => header_before(all, table@, i as int) is None,
            },
        decreases n - i,
    {
        assert(all[i as int] == lines@[i as int]@);
        let t = text::trim(lines[i].as_str());
        if header(t.as_str()) {
            current = bracket_free(t.as_str());
            if text::same(current.as_str(), table) {
                header_at = Some(i);
            }
        } else if text::same(current.as_str(), table) && assigns(t.as_str(), key) {
            let old_line = text::chars_of(lines[i].as_str());
            let mut line = indent_of(lines[i].as_str());
            line.append(assign(key, literal).as_str());
            if (i + 1 < n || ended) && old_line.len() > 0 && old_line[old_line.len() - 1] == '\r' {
                let ghost before = line@;
                line.push('\r');
                assert(line@ =~= before + seq!['\r']);
            } else {
                assert(line@ =~= line@ + Seq::<char>::empty());
            }
            assert(line@ == replacement(all, i as int, ended, key@, literal@));
            lines.set(i, line);
            assert(text::texts(lines@) =~= all.update(i as int, line@));
            return finish(&lines, ended);
        }
        i = i + 1;
    }
    match header_at {
        Some(h) => {
            let line = assign(key, literal);
            lines.insert(h + 1, line);
            assert(text::texts(lines@) =~= all.insert(h + 1, line@));
        },
        None => {
            let blank_line = String::new();
            let mut head = "[".to_string();
            head.append(table);
            head.append("]");
            let line = assign(key, literal);
            lines.push(blank_line);
            lines.push(head);
            lines.push(line);
            assert(blank_line@ =~= seq![]);
            assert(text::texts(lines@) =~= all.push(seq![]).push(head@).push(line@));
        },
    }
    finish(&lines, ended)
}

// ---------------------------------------------------------------------------
// What an edit leaves alone
// ---------------------------------------------------------------------------

/// What stands before the line at `i`.
pub open spec fn text_before(lines: Seq<Seq<char>>, i: int) -> Seq<char> {
    if i <= 0 {
        seq![]
    } else {
        text::joined(lines.take(i), seq!['\n']) + seq!['\n']
    }
}

/// What stands behind the line at `i`.
pub open spec fn text_behind(lines: Seq<Seq<char>>, i: int, model: Seq<char>) -> Seq<char> {
    (if i + 1 >= lines.len() {
        seq![]
    } else {
        seq!['\n'] + text::joined(lines.skip(i + 1), seq!['\n'])
    }) + (if ends_line(model) {
        seq!['\n']
    } else {
        seq![]
    })
}

proof fn lemma_unlines_around(lines: Seq<Seq<char>>, i: int, model: Seq<char>)
    requires
        0 <= i < lines.len(),
    ensures
        unlines(lines, model) == text_before(lines, i) + lines[i] + text_behind(lines, i, model),
{
    let nl = seq!['\n'];
    let front = lines.take(i);
    let back = lines.skip(i + 1);
    let one = seq![lines[i]];
    assert(text::joined(one, nl) == lines[i]);
    if front.len() > 0 && back.len() > 0 {
        text::lemma_joined_concat(front, one, nl);
        text::lemma_joined_concat(front + one, back, nl);
        assert(front + one + back =~= lines);
    } else if front.len() > 0 {
        text::lemma_joined_concat(front, one, nl);
        assert(front + one =~= lines);
    } else if back.len() > 0 {
        text::lemma_joined_concat(one, back, nl);
        assert(one + back =~= lines);
    } else {
        assert(one =~= lines);
    }
    assert(unlines(lines, model) =~= text_before(lines, i) + lines[i] + text_behind(
        lines,
        i,
        model,
    ));
}

/// Taking a file apart into lines and putting it together again is no edit.
pub proof fn law_lines_put_together_are_the_file(file: Seq<char>)
    ensures
        unlines(raw_lines(file), file) == file,
        ends_line(file) <==> text::pieces(file, '\n').last().len() == 0 && file.len() > 0,
        !ends_line(file) && file.len() > 0 ==> raw_lines(file).len() > 0
            && raw_lines(file).last().len() > 0,
        forall|i: int|
            0 <= i < raw_lines(file).len() ==> !(#[trigger] raw_lines(file)[i]).contains('\n'),
{
    let nl = seq!['\n'];
    let parts = text::pieces(file, '\n');
    text::lemma_joined_pieces(file, '\n');
    let last = parts.last();
    assert(!last.contains('\n'));
    let front = parts.drop_last();
    if parts.len() == 1 {
        assert(parts =~= seq![file]);
        assert(last == file);
        if file.len() > 0 {
            assert(file.contains(file.last()));
        } else {
            assert(front =~= seq![]);
            assert(unlines(raw_lines(file), file) =~= file);
        }
    } else {
        assert(file == text::joined(front, nl) + nl + last);
        if last.len() > 0 {
            assert(file.last() == last.last());
            assert(last.contains(last.last()));
        } else {
            assert(file.last() == '\n');
        }
    }
    assert(unlines(raw_lines(file), file) =~= file);
    assert forall|i: int| 0 <= i < raw_lines(file).len() implies !(#[trigger] raw_lines(
        file,
    )[i]).contains('\n') by {
        assert(raw_lines(file)[i] == parts[i]);
    }
}

/// Where the first assignment stands, if anywhere.
proof fn lemma_assignment_from(lines: Seq<Seq<char>>, table: Seq<char>, key: Seq<char>, from: int)
    requires
        0 <= from <= lines.len(),
    ensures
        match assignment_from(lines, table, key, from) {
            Some(i) => from <= i < lines.len() && assigns_at(lines, table, key, i) && forall|j: int|
                from <= j < i ==> !assigns_at(lines, table, key, j),
            None => forall|j: int| from <= j < lines.len() ==> !assigns_at(lines, table, key, j),
        },
    decreases lines.len() - from,
{
    if from < lines.len() && !assigns_at(lines, table, key, from) {
        lemma_assignment_from(lines, table, key, from + 1);
    }
}

proof fn lemma_assignment_is(
    lines: Seq<Seq<char>>,
    table: Seq<char>,
    key: Seq<char>,
    from: int,
    i: int,
)
    requires
        0 <= from <= i < lines.len(),
        assigns_at(lines, table, key, i),
        forall|j: int| from <= j < i ==> !assigns_at(lines, table, key, j),
    ensures
        assignment_from(lines, table, key, from) == Some(i),
    decreases i - from,
{
    if from < i {
        lemma_assignment_is(lines, table, key, from + 1, i);
    }
}

proof fn lemma_header_before(lines: Seq<Seq<char>>, table: Seq<char>, n: int)
    requires
        0 <= n <= lines.len(),
    ensures
        match header_before(lines, table, n) {
            Some(h) => 0 <= h < n && opens_at(lines, table, h),
            None => true,
        },
    decreases n,
{
    if n > 0 && !opens_at(lines, table, n - 1) {
        lemma_header_before(lines, table, n - 1);
    }
}

/// Editing a key that is there replaces its line and leaves every other byte
/// alone.
pub proof fn law_every_other_byte_is_left_alone(
    file: Seq<char>,
    table: Seq<char>,
    key: Seq<char>,
    literal: Seq<char>,
)
    requires
        assignment_from(raw_lines(file), table, key, 0) is Some,
    ensures
        ({
            let lines = raw_lines(file);
            let i = assignment_from(lines, table, key, 0)->0;
            let before = text_before(lines, i);
            let behind = text_behind(lines, i, file);
            &&& 0 <= i < lines.len()
            &&& file == before + lines[i] + behind
            &&& with_key(file, table, key, literal) == before + replacement(
                lines,
                i,
                ends_line(file),
                key,
                literal,
            ) + behind
        }),
{
    let lines = raw_lines(file);
    lemma_assignment_from(lines, table, key, 0);
    let i = assignment_from(lines, table, key, 0)->0;
    law_lines_put_together_are_the_file(file);
    lemma_unlines_around(lines, i, file);
    let new = lines.update(i, replacement(lines, i, ends_line(file), key, literal));
    lemma_unlines_around(new, i, file);
    assert(new.take(i) =~= lines.take(i));
    assert(new.skip(i + 1) =~= lines.skip(i + 1));
}

/// `out` is `file` with `new` inserted between `before` and `behind`.
pub open spec fn is_insertion(
    file: Seq<char>,
    out: Seq<char>,
    before: Seq<char>,
    new: Seq<char>,
    behind: Seq<char>,
) -> bool {
    file == before + behind && out == before + new + behind
}

/// The newline that ends a file, where one does.
spec fn line_ending(file: Seq<char>) -> Seq<char> {
    if ends_line(file) {
        seq!['\n']
    } else {
        seq![]
    }
}

proof fn lemma_insert_line(
    lines: Seq<Seq<char>>,
    edited: Seq<Seq<char>>,
    h: int,
    line: Seq<char>,
    model: Seq<char>,
)
    requires
        0 <= h < lines.len(),
        edited == lines.insert(h + 1, line),
    ensures
        exists|before: Seq<char>, new: Seq<char>, behind: Seq<char>|
            is_insertion(
                unlines(lines, model),
                unlines(edited, model),
                before,
                new,
                behind,
            ),
{
    let nl = seq!['\n'];
    let end = line_ending(model);
    let front = lines.take(h + 1);
    let back = lines.skip(h + 1);
    let file = unlines(lines, model);
    let out = unlines(edited, model);
    assert(text::joined(seq![line], nl) == line);
    text::lemma_joined_concat(front, seq![line], nl);
    if back.len() > 0 {
        text::lemma_joined_concat(front, back, nl);
        assert(front + back =~= lines);
        text::lemma_joined_concat(front + seq![line], back, nl);
        assert(front + seq![line] + back =~= edited);
        let before = text::joined(front, nl) + nl;
        let new = line + nl;
        let behind = text::joined(back, nl) + end;
        assert(file =~= before + behind);
        assert(out =~= before + new + behind);
        assert(is_insertion(file, out, before, new, behind));
    } else {
        assert(front =~= lines);
        assert(front + seq![line] =~= edited);
        let before = text::joined(front, nl);
        let new = nl + line;
        assert(file =~= before + end);
        assert(out =~= before + new + end);
        assert(is_insertion(file, out, before, new, end));
    }
}

proof fn lemma_append_lines(lines: Seq<Seq<char>>, tail: Seq<Seq<char>>, model: Seq<char>)
    requires
        tail.len() > 0,
    ensures
        exists|before: Seq<char>, new: Seq<char>, behind: Seq<char>|
            is_insertion(
                unlines(lines, model),
                unlines(lines + tail, model),
                before,
                new,
                behind,
            ),
{
    let nl = seq!['\n'];
    let end = line_ending(model);
    let file = unlines(lines, model);
    let out = unlines(lines + tail, model);
    let before = text::joined(lines, nl);
    let more = text::joined(tail, nl);
    assert(file =~= before + end);
    if lines.len() > 0 {
        text::lemma_joined_concat(lines, tail, nl);
        let new = nl + more;
        assert(out =~= before + new + end);
        assert(is_insertion(file, out, before, new, end));
    } else {
        assert(lines + tail =~= tail);
        assert(out =~= before + more + end);
        assert(is_insertion(file, out, before, more, end));
    }
}

/// Editing a key that is not there inserts text and removes none.
pub proof fn law_an_insertion_removes_nothing(
    file: Seq<char>,
    table: Seq<char>,
    key: Seq<char>,
    literal: Seq<char>,
)
    requires
        assignment_from(raw_lines(file), table, key, 0) is None,
    ensures
        exists|before: Seq<char>, new: Seq<char>, behind: Seq<char>|
            is_insertion(file, with_key(file, table, key, literal), before, new, behind),
{
    let lines = raw_lines(file);
    let line = assignment(key, literal);
    law_lines_put_together_are_the_file(file);
    match header_before(lines, table, lines.len() as int) {
        Some(h) => {
            lemma_header_before(lines, table, lines.len() as int);
            let edited = lines.insert(h + 1, line);
            assert(with_key(file, table, key, literal) == unlines(edited, file));
            lemma_insert_line(lines, edited, h, line, file);
        },
        None => {
            let tail = seq![seq![], "["@ + table + "]"@, line];
            let edited = lines.push(seq![]).push("["@ + table + "]"@).push(line);
            assert(with_key(file, table, key, literal) == unlines(edited, file));
            assert(edited =~= lines + tail);
            lemma_append_lines(lines, tail, file);
        },
    }
}

// ---------------------------------------------------------------------------
// What an edit achieves
// ---------------------------------------------------------------------------

/// A key that stands on one line and reads as neither a header nor a comment.
pub open spec fn plain_key(key: Seq<char>) -> bool {
    key.len() > 0 && !text::is_space(key[0]) && key[0] != '[' && key[0] != '#' && !key.contains(
        '\n',
    )
}

/// A literal that stands on one line and does not end in whitespace.
pub open spec fn plain_literal(literal: Seq<char>) -> bool {
    literal.len() > 0 && !text::is_space(literal.last()) && !literal.contains('\n')
}

/// A literal that stands on one line and takes no part of its ending.
pub open spec fn one_line(literal: Seq<char>) -> bool {
    !literal.contains('\n') && (literal.len() > 0 ==> literal.last() != '\r')
}

/// A table name that stands on one line and does not start or end with a bracket.
pub open spec fn plain_table(table: Seq<char>) -> bool {
    table.len() > 0 && !is_bracket(table[0]) && !is_bracket(table.last()) && !table.contains('\n')
}

/// `s` is all whitespace, on one line.
spec fn is_padding(s: Seq<char>) -> bool {
    forall|i: int| 0 <= i < s.len() ==> text::is_space(#[trigger] s[i]) && s[i] != '\n'
}

#[verifier::spinoff_prover]
proof fn lemma_assignment_trims(key: Seq<char>, literal: Seq<char>)
    requires
        plain_key(key),
    ensures
        ({
            let core = assignment(key, literal);
            let t = text::trimmed(core);
            &&& t.len() >= key.len() + 2
            &&& t == core.take(t.len() as int)
            &&& t[0] == key[0]
            &&& !text::is_space(t.last())
            &&& t.len() <= core.len()
            &&& core == t + core.skip(t.len() as int)
            &&& forall|i: int| t.len() <= i < core.len() ==> text::is_space(#[trigger] core[i])
            &&& plain_literal(literal) ==> t == core
        }),
{
    reveal_strlit(" = ");
    let core = assignment(key, literal);
    let k = key.len() as int;
    assert(core[0] == key[0]);
    assert(core[k + 1] == '=');
    text::lemma_trimmed_start_at(core, 0);
    assert(core.skip(0) =~= core);
    let m = text::lemma_trimmed_end_cut(core);
    let t = core.take(m);
    assert(m >= k + 2);
    assert(core =~= t + core.skip(m));
    if plain_literal(literal) {
        assert(core.last() == literal.last());
        assert(m == core.len());
        assert(t =~= core);
    }
}

#[verifier::spinoff_prover]
proof fn lemma_assignment_assigns(key: Seq<char>, literal: Seq<char>)
    requires
        plain_key(key),
    ensures
        is_assignment(text::trimmed(assignment(key, literal)), key),
{
    reveal_strlit(" = ");
    let core = assignment(key, literal);
    let k = key.len() as int;
    lemma_assignment_trims(key, literal);
    let t = text::trimmed(core);
    assert(t[0] == key[0]);
    assert(t.subrange(0, k) =~= key);
    assert(text::occurs_at(t, key, 0));
    let rest = t.skip(k);
    assert(rest[0] == core[k]);
    assert(rest[1] == core[k + 1]);
    assert(text::is_space(rest[0]));
    assert(rest[1] == '=');
    text::lemma_trimmed_start_at(rest, 1);
    assert(rest.skip(1)[0] == '=');
}

proof fn lemma_assignment_is_one_line(key: Seq<char>, literal: Seq<char>)
    requires
        plain_key(key),
        one_line(literal),
    ensures
        assignment(key, literal).last() != '\r',
        forall|i: int|
            0 <= i < assignment(key, literal).len() ==> #[trigger] assignment(key, literal)[i]
                != '\n',
{
    reveal_strlit(" = ");
    let core = assignment(key, literal);
    assert(core.last() == if literal.len() > 0 { literal.last() } else { ' ' });
    assert forall|i: int| 0 <= i < core.len() implies #[trigger] core[i] != '\n' by {
        if i < key.len() {
            assert(core[i] == key[i]);
            assert(key.contains(key[i]));
        } else if i < key.len() + 3 {
            assert(core[i] == " = "@[i - key.len()]);
        } else {
            assert(core[i] == literal[i - key.len() - 3]);
            assert(literal.contains(literal[i - key.len() - 3]));
        }
    }
}

/// Padding around text is what trimming takes away.
#[verifier::spinoff_prover]
proof fn lemma_padding(pad: Seq<char>, core: Seq<char>, cr: Seq<char>)
    requires
        core.len() > 0,
        !text::is_space(core[0]),
        !text::is_space(core.last()),
        is_padding(pad),
        is_padding(cr),
    ensures
        text::trimmed(pad + core + cr) == core,
        indent(pad + core + cr) == pad,
{
    let line = pad + core + cr;
    let k = pad.len() as int;
    assert(line[k] == core[0]);
    assert forall|i: int| 0 <= i < k implies text::is_space(#[trigger] line[i]) by {
        assert(line[i] == pad[i]);
    }
    text::lemma_trimmed_start_at(line, k);
    let tail = line.skip(k);
    assert(tail =~= core + cr);
    assert(tail[core.len() - 1] == core.last());
    assert forall|i: int| core.len() <= i < tail.len() implies text::is_space(#[trigger] tail[i]) by {
        assert(tail[i] == cr[i - core.len()]);
    }
    text::lemma_trimmed_end_at(tail, core.len() as int);
    assert(tail.take(core.len() as int) =~= core);
    assert(indent(line) =~= pad);
}

proof fn lemma_padded_assignment(
    pad: Seq<char>,
    key: Seq<char>,
    literal: Seq<char>,
    cr: Seq<char>,
)
    requires
        plain_key(key),
        one_line(literal),
        is_padding(pad),
        is_padding(cr),
    ensures
        ({
            let line = pad + assignment(key, literal) + cr;
            &&& text::trimmed(line) == text::trimmed(assignment(key, literal))
            &&& is_assignment(text::trimmed(line), key)
            &&& indent(line) == pad
            &&& !line.contains('\n')
            &&& line.len() > 0
        }),
{
    let core = assignment(key, literal);
    let line = pad + core + cr;
    lemma_assignment_trims(key, literal);
    lemma_assignment_assigns(key, literal);
    lemma_assignment_is_one_line(key, literal);
    let t = text::trimmed(core);
    let behind = core.skip(t.len() as int) + cr;
    assert(line =~= pad + t + behind);
    assert forall|i: int| 0 <= i < behind.len() implies text::is_space(#[trigger] behind[i])
        && behind[i] != '\n' by {
        if i < core.len() - t.len() {
            assert(behind[i] == core[t.len() + i]);
        } else {
            assert(behind[i] == cr[i - (core.len() - t.len())]);
        }
    }
    lemma_padding(pad, t, behind);
    if line.contains('\n') {
        let i = choose|i: int| 0 <= i < line.len() && line[i] == '\n';
        if i < pad.len() {
            assert(line[i] == pad[i]);
        } else if i < pad.len() + core.len() {
            assert(line[i] == core[i - pad.len()]);
        } else {
            assert(line[i] == cr[i - pad.len() - core.len()]);
        }
    }
}

proof fn lemma_table_at_same(a: Seq<Seq<char>>, b: Seq<Seq<char>>, i: int)
    requires
        forall|j: int| 0 <= j < i ==> a[j] == b[j],
    ensures
        table_at(a, i) == table_at(b, i),
    decreases i,
{
    if i > 0 {
        lemma_table_at_same(a, b, i - 1);
    }
}

/// Lines that end no line, put together and taken apart again.
proof fn lemma_lines_survive(lines: Seq<Seq<char>>, model: Seq<char>)
    requires
        lines.len() > 0,
        lines.last().len() > 0 || ends_line(model),
        forall|i: int| 0 <= i < lines.len() ==> !(#[trigger] lines[i]).contains('\n'),
    ensures
        raw_lines(unlines(lines, model)) == lines,
        ends_line(unlines(lines, model)) == ends_line(model),
{
    let nl = seq!['\n'];
    let whole = text::joined(lines, nl);
    text::lemma_pieces_joined(lines, '\n');
    if ends_line(model) {
        let empty: Seq<char> = seq![];
        let more = lines.push(empty);
        assert forall|i: int| 0 <= i < more.len() implies !(#[trigger] more[i]).contains('\n') by {
            if i < lines.len() {
                assert(more[i] == lines[i]);
            }
        }
        text::lemma_pieces_joined(more, '\n');
        assert(more.drop_last() =~= lines);
        assert(text::joined(more, nl) =~= whole + nl + empty);
        assert(unlines(lines, model) =~= text::joined(more, nl));
        assert(more.last().len() == 0);
    } else {
        assert(unlines(lines, model) =~= whole);
        assert(text::pieces(whole, '\n') == lines);
        let last = lines.last();
        lemma_unlines_around(lines, lines.len() - 1, model);
        assert(whole.last() == last.last());
        assert(last.contains(last.last()));
    }
}

/// Where the assignment stands after an edit, and what its line is.
proof fn lemma_after_edit(
    file: Seq<char>,
    table: Seq<char>,
    key: Seq<char>,
    literal: Seq<char>,
) -> (j: int)
    requires
        plain_key(key),
        one_line(literal),
        plain_table(table),
    ensures
        ({
            let lines = raw_lines(file);
            let edited = edited_lines(lines, ends_line(file), table, key, literal);
            &&& raw_lines(with_key(file, table, key, literal)) == edited
            &&& ends_line(with_key(file, table, key, literal)) == ends_line(file)
            &&& 0 <= j < edited.len()
            &&& assignment_from(edited, table, key, 0) == Some(j)
            &&& text::trimmed(edited[j]) == text::trimmed(assignment(key, literal))
            &&& forall|other: Seq<char>|
                edited_lines(lines, ends_line(file), table, key, other) == edited.update(
                    j,
                    #[trigger] replacement(edited, j, ends_line(file), key, other),
                )
        }),
{
    let lines = raw_lines(file);
    let ended = ends_line(file);
    let edited = edited_lines(lines, ended, table, key, literal);
    let line = assignment(key, literal);
    let empty: Seq<char> = seq![];
    law_lines_put_together_are_the_file(file);
    lemma_assignment_from(lines, table, key, 0);
    lemma_header_before(lines, table, lines.len() as int);
    lemma_padded_assignment(empty, key, literal, empty);
    lemma_assignment_is_one_line(key, literal);
    assert(empty + line + empty =~= line);
    let j: int;
    match assignment_from(lines, table, key, 0) {
        Some(i) => {
            j = i;
            let pad = indent(lines[i]);
            let cr = line_cr(lines, i, ended);
            let k = text::lemma_trimmed_start_cut(lines[i]);
            assert(pad =~= lines[i].take(k));
            assert forall|x: int| 0 <= x < pad.len() implies text::is_space(#[trigger] pad[x])
                && pad[x] != '\n' by {
                assert(pad[x] == lines[i][x]);
                assert(lines[i].contains(lines[i][x]));
            }
            lemma_padded_assignment(pad, key, literal, cr);
            let new = replacement(lines, i, ended, key, literal);
            assert(edited[i] == new);
            assert(new.last() == if cr.len() > 0 { '\r' } else { line.last() });
            assert(line_cr(edited, i, ended) =~= cr);
            lemma_table_at_same(edited, lines, i);
            assert forall|x: int| 0 <= x < i implies !assigns_at(edited, table, key, x) by {
                lemma_table_at_same(edited, lines, x);
                assert(!assigns_at(lines, table, key, x));
            }
            lemma_assignment_is(edited, table, key, 0, i);
            assert forall|x: int| 0 <= x < edited.len() implies !(#[trigger] edited[x]).contains(
                '\n',
            ) by {
                if x != i {
                    assert(edited[x] == lines[x]);
                }
            }
        },
        None => match header_before(lines, table, lines.len() as int) {
            Some(h) => {
                j = h + 1;
                assert forall|x: int| 0 <= x <= h implies !assigns_at(edited, table, key, x) by {
                    lemma_table_at_same(edited, lines, x);
                    assert(edited[x] == lines[x]);
                    assert(!assigns_at(lines, table, key, x));
                }
                assert(edited[h] == lines[h]);
                assert(edited[j] == line);
                assert(table_at(edited, j) == table);
                lemma_assignment_is(edited, table, key, 0, j);
                assert forall|x: int| 0 <= x < edited.len() implies !(#[trigger] edited[x]).contains(
                    '\n',
                ) by {
                    if x < j {
                        assert(edited[x] == lines[x]);
                    } else if x > j {
                        assert(edited[x] == lines[x - 1]);
                    }
                }
                if j + 1 < edited.len() {
                    assert(edited.last() == lines.last());
                }
            },
            None => {
                let n = lines.len() as int;
                j = n + 2;
                reveal_strlit("[");
                reveal_strlit("]");
                let head = "["@ + table + "]"@;
                assert(edited[n] == empty);
                assert(edited[n + 1] == head);
                assert(edited[j] == line);
                lemma_plain_header(table);
                assert(table_at(edited, j) == table);
                text::lemma_blank(empty);
                assert forall|x: int| 0 <= x < j implies !assigns_at(edited, table, key, x) by {
                    if x < n {
                        lemma_table_at_same(edited, lines, x);
                        assert(edited[x] == lines[x]);
                        assert(!assigns_at(lines, table, key, x));
                    } else if x == n {
                        assert(text::trimmed(edited[n]).len() == 0);
                    }
                }
                lemma_assignment_is(edited, table, key, 0, j);
                assert forall|x: int| 0 <= x < edited.len() implies !(#[trigger] edited[x]).contains(
                    '\n',
                ) by {
                    if x < n {
                        assert(edited[x] == lines[x]);
                    }
                }
            },
        },
    }
    lemma_lines_survive(edited, file);
    assert forall|other: Seq<char>|
        edited_lines(lines, ended, table, key, other) == edited.update(
            j,
            #[trigger] replacement(edited, j, ended, key, other),
        ) by {
        let again = replacement(edited, j, ended, key, other);
        if assignment_from(lines, table, key, 0) is None {
            assert(again =~= assignment(key, other));
        }
        assert(edited_lines(lines, ended, table, key, other) =~= edited.update(j, again));
    }
    j
}

proof fn lemma_plain_header(table: Seq<char>)
    requires
        plain_table(table),
    ensures
        ({
            let head = "["@ + table + "]"@;
            &&& text::trimmed(head) == head
            &&& is_header(head)
            &&& header_name(head) == table
            &&& !head.contains('\n')
        }),
{
    reveal_strlit("[");
    reveal_strlit("]");
    let head = "["@ + table + "]"@;
    text::lemma_trimmed_start_at(head, 0);
    assert(head.skip(0) =~= head);
    text::lemma_trimmed_end_at(head, head.len() as int);
    assert(head.take(head.len() as int) =~= head);
    let a = head.drop_first();
    assert(a =~= table + "]"@);
    assert(without_leading_brackets(a) == a);
    assert(without_leading_brackets(head) == a);
    let b = a.drop_last();
    assert(b =~= table);
    assert(without_trailing_brackets(b) == b);
    assert(a.last() == ']');
    assert(without_trailing_brackets(a) == b);
    if head.contains('\n') {
        let i = choose|i: int| 0 <= i < head.len() && head[i] == '\n';
        assert(0 < i < head.len() - 1);
        assert(table[i - 1] == '\n');
        assert(table.contains('\n'));
    }
}

/// A key that was set is there: the first assignment to it in its table is the
/// one that was written.
pub proof fn law_a_key_that_was_set_is_there(
    file: Seq<char>,
    table: Seq<char>,
    key: Seq<char>,
    literal: Seq<char>,
)
    requires
        plain_key(key),
        one_line(literal),
        plain_table(table),
    ensures
        ({
            let lines = raw_lines(with_key(file, table, key, literal));
            assignment_from(lines, table, key, 0) matches Some(j) && 0 <= j < lines.len()
                && text::trimmed(lines[j]) == text::trimmed(assignment(key, literal))
        }),
        plain_literal(literal) ==> text::trimmed(assignment(key, literal)) == assignment(
            key,
            literal,
        ),
{
    let j = lemma_after_edit(file, table, key, literal);
    lemma_assignment_trims(key, literal);
}

/// The last write wins: setting a key twice leaves what setting it to the second
/// value alone would have left.
pub proof fn law_the_last_write_wins(
    file: Seq<char>,
    table: Seq<char>,
    key: Seq<char>,
    first: Seq<char>,
    second: Seq<char>,
)
    requires
        plain_key(key),
        one_line(first),
        plain_table(table),
    ensures
        with_key(with_key(file, table, key, first), table, key, second) == with_key(
            file,
            table,
            key,
            second,
        ),
{
    let j = lemma_after_edit(file, table, key, first);
    let lines = raw_lines(with_key(file, table, key, first));
    let again = replacement(lines, j, ends_line(file), key, second);
    assert(edited_lines(raw_lines(file), ends_line(file), table, key, second) == lines.update(
        j,
        again,
    ));
}

/// Setting a key to what it is set to changes nothing.
pub proof fn law_setting_a_key_twice_is_setting_it_once(
    file: Seq<char>,
    table: Seq<char>,
    key: Seq<char>,
    literal: Seq<char>,
)
    requires
        plain_key(key),
        one_line(literal),
        plain_table(table),
    ensures
        with_key(with_key(file, table, key, literal), table, key, literal) == with_key(
            file,
            table,
            key,
            literal,
        ),
{
    law_the_last_write_wins(file, table, key, literal, literal);
}

/// A line that neither opens a table nor assigns to `key`: it does not start with a
/// bracket, and where it starts with the key, the key goes on or nothing is
/// assigned.
pub open spec fn passes_over(line: Seq<char>, key: Seq<char>) -> bool {
    let t = text::trimmed(line);
    let n = key.len() as int;
    &&& t.len() > 0 ==> t[0] != '['
    &&& t.len() >= n && t.take(n) == key ==> t.len() == n || !text::is_space(t[n]) && t[n] != '='
}

proof fn lemma_passed_over(line: Seq<char>, key: Seq<char>)
    requires
        passes_over(line, key),
    ensures
        !is_header(text::trimmed(line)),
        !is_assignment(text::trimmed(line), key),
{
    let t = text::trimmed(line);
    let n = key.len() as int;
    if text::occurs_at(t, key, 0) {
        assert(t.take(n) =~= t.subrange(0, n));
        let rest = t.skip(n);
        if t.len() > n {
            assert(rest[0] == t[n]);
            text::lemma_trimmed_start_at(rest, 0);
            assert(rest.skip(0) =~= rest);
        } else {
            assert(rest.len() == 0);
        }
    }
}

/// The lines of a file and whether the last one is ended, as the text of the file.
pub open spec fn file_of(lines: Seq<Seq<char>>, ended: bool) -> Seq<char> {
    text::joined(lines, seq!['\n']) + if ended {
        seq!['\n']
    } else {
        seq![]
    }
}

proof fn lemma_file_of(lines: Seq<Seq<char>>, ended: bool)
    requires
        lines.len() > 0,
        lines.last().len() > 0 || ended,
        forall|i: int| 0 <= i < lines.len() ==> !(#[trigger] lines[i]).contains('\n'),
    ensures
        raw_lines(file_of(lines, ended)) == lines,
        ends_line(file_of(lines, ended)) == ended,
        forall|edited: Seq<Seq<char>>| #[trigger]
            unlines(edited, file_of(lines, ended)) == file_of(edited, ended),
{
    let model: Seq<char> = if ended {
        seq!['\n']
    } else {
        seq![]
    };
    assert(unlines(lines, model) == file_of(lines, ended));
    lemma_lines_survive(lines, model);
}

proof fn lemma_not_in_table(lines: Seq<Seq<char>>, table: Seq<char>, i: int)
    requires
        0 <= i <= lines.len(),
        table.len() > 0,
        forall|j: int| 0 <= j < i ==> !opens_at(lines, table, j),
    ensures
        table_at(lines, i) != table,
    decreases i,
{
    if i > 0 {
        lemma_not_in_table(lines, table, i - 1);
        assert(!opens_at(lines, table, i - 1));
    }
}

proof fn lemma_in_table(lines: Seq<Seq<char>>, table: Seq<char>, key: Seq<char>, h: int, i: int)
    requires
        0 <= h < i <= lines.len(),
        opens_at(lines, table, h),
        forall|j: int| h < j < i ==> passes_over(#[trigger] lines[j], key),
    ensures
        table_at(lines, i) == table,
        forall|j: int| h <= j < i ==> !assigns_at(lines, table, key, j),
    decreases i,
{
    if h < i - 1 {
        lemma_in_table(lines, table, key, h, i - 1);
        lemma_passed_over(lines[i - 1], key);
    }
}

/// A setting is replaced where it stands. In a file where the table is opened once
/// and the key is assigned in it, the new assignment takes the place of the old
/// one: with the whitespace that stood before it, and with every other line as it
/// was, whatever they hold.
pub proof fn law_a_setting_is_replaced_where_it_stands(
    above: Seq<Seq<char>>,
    table: Seq<char>,
    between: Seq<Seq<char>>,
    pad: Seq<char>,
    key: Seq<char>,
    gap: Seq<char>,
    assigned: Seq<char>,
    below: Seq<Seq<char>>,
    ended: bool,
    literal: Seq<char>,
)
    requires
        plain_key(key),
        plain_table(table),
        forall|i: int|
            0 <= i < above.len() ==> !opens_at(above, table, i) && !(#[trigger] above[i]).contains(
                '\n',
            ),
        forall|i: int|
            0 <= i < between.len() ==> passes_over(#[trigger] between[i], key)
                && !between[i].contains('\n'),
        forall|i: int|
            0 <= i < pad.len() ==> text::is_space(#[trigger] pad[i]) && pad[i] != '\n',
        forall|i: int|
            0 <= i < gap.len() ==> text::is_space(#[trigger] gap[i]) && gap[i] != '\n',
        !assigned.contains('\n'),
        assigned.len() > 0 ==> assigned.last() != '\r',
        forall|i: int| 0 <= i < below.len() ==> !(#[trigger] below[i]).contains('\n'),
        below.len() > 0 ==> below.last().len() > 0 || ended,
    ensures
        ({
            let head = above.push("["@ + table + "]"@) + between;
            let was = pad + key + gap + "="@ + assigned;
            let is = pad + key + " = "@ + literal;
            with_key(file_of(head.push(was) + below, ended), table, key, literal) == file_of(
                head.push(is) + below,
                ended,
            )
        }),
{
    reveal_strlit("=");
    reveal_strlit(" = ");
    let opening = "["@ + table + "]"@;
    let head = above.push(opening) + between;
    let was = pad + key + gap + "="@ + assigned;
    let is = pad + key + " = "@ + literal;
    let lines = head.push(was) + below;
    let h = above.len() as int;
    let j = head.len() as int;
    lemma_plain_header(table);
    assert(lines[h] == opening);
    assert(lines[j] == was);
    lemma_old_line(pad, key, gap, assigned);
    assert forall|i: int| 0 <= i < lines.len() implies !(#[trigger] lines[i]).contains('\n') by {
        if i < h {
            assert(lines[i] == above[i]);
        } else if h < i < j {
            assert(lines[i] == between[i - h - 1]);
        } else if i > j {
            assert(lines[i] == below[i - j - 1]);
        }
    }
    if below.len() > 0 {
        assert(lines.last() == below.last());
    } else {
        assert(lines.last() == was);
    }
    lemma_file_of(lines, ended);
    assert forall|i: int| 0 <= i < h implies !opens_at(lines, table, i) by {
        assert(lines[i] == above[i]);
        assert(!opens_at(above, table, i));
    }
    assert forall|i: int| h < i < j implies passes_over(#[trigger] lines[i], key) by {
        assert(lines[i] == between[i - h - 1]);
    }
    assert(opens_at(lines, table, h));
    lemma_in_table(lines, table, key, h, j);
    assert(assigns_at(lines, table, key, j));
    assert forall|i: int| 0 <= i < j implies !assigns_at(lines, table, key, i) by {
        if i < h {
            lemma_not_in_table(lines, table, i);
        }
    }
    lemma_assignment_is(lines, table, key, 0, j);
    assert(line_cr(lines, j, ended).len() == 0);
    assert(replacement(lines, j, ended, key, literal) =~= is);
    assert(lines.update(j, is) =~= head.push(is) + below);
}

proof fn lemma_old_line(pad: Seq<char>, key: Seq<char>, gap: Seq<char>, assigned: Seq<char>)
    requires
        plain_key(key),
        is_padding(pad),
        is_padding(gap),
        !assigned.contains('\n'),
        assigned.len() > 0 ==> assigned.last() != '\r',
    ensures
        ({
            let line = pad + key + gap + "="@ + assigned;
            &&& is_assignment(text::trimmed(line), key)
            &&& indent(line) == pad
            &&& !line.contains('\n')
            &&& line.len() > 0
            &&& line.last() != '\r'
        }),
{
    reveal_strlit("=");
    let line = pad + key + gap + "="@ + assigned;
    let p = pad.len() as int;
    let n = key.len() as int;
    let g = gap.len() as int;
    assert(line[p] == key[0]);
    assert forall|i: int| 0 <= i < p implies text::is_space(#[trigger] line[i]) by {
        assert(line[i] == pad[i]);
    }
    text::lemma_trimmed_start_at(line, p);
    assert(indent(line) =~= pad);
    let s = line.skip(p);
    let m = text::lemma_trimmed_end_cut(s);
    let t = s.take(m);
    assert(s[n + g] == '=');
    assert(m > n + g);
    assert(t[0] == key[0]);
    assert(t.subrange(0, n) =~= key);
    assert(text::occurs_at(t, key, 0));
    let rest = t.skip(n);
    assert forall|i: int| 0 <= i < g implies text::is_space(#[trigger] rest[i]) by {
        assert(rest[i] == gap[i]);
    }
    assert(rest[g] == '=');
    text::lemma_trimmed_start_at(rest, g);
    assert(rest.skip(g)[0] == '=');
    if line.contains('\n') {
        let i = choose|i: int| 0 <= i < line.len() && line[i] == '\n';
        if i < p {
            assert(line[i] == pad[i]);
        } else if i < p + n {
            assert(line[i] == key[i - p]);
            assert(key.contains(key[i - p]));
        } else if i < p + n + g {
            assert(line[i] == gap[i - p - n]);
        } else if i > p + n + g {
            assert(line[i] == assigned[i - p - n - g - 1]);
            assert(assigned.contains(assigned[i - p - n - g - 1]));
        }
    }
    if assigned.len() > 0 {
        assert(line.last() == assigned.last());
    } else {
        assert(line.last() == '=');
    }
}

/// A setting that is not there goes right below the header of its table, and every
/// line stays. In a file where the table is opened once and the key is assigned
/// nowhere below, the assignment is put behind the header.
pub proof fn law_a_new_setting_goes_below_its_header(
    above: Seq<Seq<char>>,
    table: Seq<char>,
    key: Seq<char>,
    below: Seq<Seq<char>>,
    ended: bool,
    literal: Seq<char>,
)
    requires
        plain_key(key),
        plain_table(table),
        forall|i: int|
            0 <= i < above.len() ==> !opens_at(above, table, i) && !(#[trigger] above[i]).contains(
                '\n',
            ),
        forall|i: int|
            0 <= i < below.len() ==> passes_over(#[trigger] below[i], key) && !below[i].contains(
                '\n',
            ),
        below.len() > 0 ==> below.last().len() > 0 || ended,
    ensures
        ({
            let head = above.push("["@ + table + "]"@);
            with_key(file_of(head + below, ended), table, key, literal) == file_of(
                head.push(key + " = "@ + literal) + below,
                ended,
            )
        }),
{
    let opening = "["@ + table + "]"@;
    let head = above.push(opening);
    let lines = head + below;
    let h = above.len() as int;
    let n = lines.len() as int;
    lemma_plain_header(table);
    assert(lines[h] == opening);
    assert forall|i: int| 0 <= i < n implies !(#[trigger] lines[i]).contains('\n') by {
        if i < h {
            assert(lines[i] == above[i]);
        } else if i > h {
            assert(lines[i] == below[i - h - 1]);
        }
    }
    if below.len() > 0 {
        assert(lines.last() == below.last());
    }
    lemma_file_of(lines, ended);
    assert forall|i: int| 0 <= i < h implies !opens_at(lines, table, i) by {
        assert(lines[i] == above[i]);
        assert(!opens_at(above, table, i));
    }
    assert forall|i: int| h < i < n implies passes_over(#[trigger] lines[i], key) by {
        assert(lines[i] == below[i - h - 1]);
    }
    assert(opens_at(lines, table, h));
    lemma_in_table(lines, table, key, h, n);
    assert forall|i: int| 0 <= i < n implies !assigns_at(lines, table, key, i) by {
        if i < h {
            lemma_not_in_table(lines, table, i);
        }
    }
    lemma_assignment_from(lines, table, key, 0);
    lemma_last_header(lines, table, key, h, n);
    assert(lines.insert(h + 1, assignment(key, literal)) =~= head.push(key + " = "@ + literal)
        + below);
}

proof fn lemma_last_header(lines: Seq<Seq<char>>, table: Seq<char>, key: Seq<char>, h: int, n: int)
    requires
        0 <= h < n <= lines.len(),
        opens_at(lines, table, h),
        forall|j: int| h < j < n ==> passes_over(#[trigger] lines[j], key),
    ensures
        header_before(lines, table, n) == Some(h),
    decreases n,
{
    if h < n - 1 {
        lemma_passed_over(lines[n - 1], key);
        lemma_last_header(lines, table, key, h, n - 1);
    }
}

/// A setting whose table is not there goes to the end, behind a blank line and the
/// header of the table, and every line stays.
pub proof fn law_a_new_table_goes_to_the_end(
    lines: Seq<Seq<char>>,
    table: Seq<char>,
    key: Seq<char>,
    ended: bool,
    literal: Seq<char>,
)
    requires
        plain_key(key),
        plain_table(table),
        lines.len() > 0,
        lines.last().len() > 0 || ended,
        forall|i: int|
            0 <= i < lines.len() ==> !opens_at(lines, table, i) && !(#[trigger] lines[i]).contains(
                '\n',
            ),
    ensures
        with_key(file_of(lines, ended), table, key, literal) == file_of(
            lines.push(seq![]).push("["@ + table + "]"@).push(key + " = "@ + literal),
            ended,
        ),
{
    lemma_file_of(lines, ended);
    assert forall|i: int| 0 <= i < lines.len() implies !assigns_at(lines, table, key, i) by {
        assert forall|j: int| 0 <= j < i implies !opens_at(lines, table, j) by {
            assert(!lines[j].contains('\n'));
        }
        lemma_not_in_table(lines, table, i);
    }
    lemma_assignment_from(lines, table, key, 0);
    lemma_header_before(lines, table, lines.len() as int);
    if let Some(h) = header_before(lines, table, lines.len() as int) {
        assert(!lines[h].contains('\n'));
    }
}

/// A header opens the table whose name stands between its brackets, whatever
/// whitespace stands around it; a comment opens none and assigns nothing, nor does
/// a key that only starts like another.
pub proof fn law_what_a_line_says(pad: Seq<char>, table: Seq<char>, key: Seq<char>, rest: Seq<char>)
    requires
        forall|i: int|
            0 <= i < pad.len() ==> text::is_space(#[trigger] pad[i]) && pad[i] != '\n',
        plain_table(table),
        plain_key(key),
        !key.contains('='),
        forall|i: int| 0 <= i < key.len() ==> !text::is_space(#[trigger] key[i]),
    ensures
        opens_at(seq![pad + "["@ + table + "]"@], table, 0),
        !is_header(text::trimmed(pad + "#"@ + rest)),
        !is_assignment(text::trimmed(pad + "#"@ + rest), key),
        rest.len() > 0 && !text::is_space(rest[0]) && rest[0] != '=' ==> !is_assignment(
            text::trimmed(pad + key + rest),
            key,
        ),
{
    reveal_strlit("[");
    reveal_strlit("]");
    reveal_strlit("#");
    let nothing: Seq<char> = seq![];
    let head = "["@ + table + "]"@;
    lemma_plain_header(table);
    text::law_trimming_leaves_what_stands_between(pad, head, nothing);
    assert(pad + head + nothing =~= pad + "["@ + table + "]"@);
    let line = pad + "#"@ + rest;
    let p = pad.len() as int;
    assert(line[p] == '#');
    assert forall|i: int| 0 <= i < p implies text::is_space(#[trigger] line[i]) by {
        assert(line[i] == pad[i]);
    }
    text::lemma_trimmed_start_at(line, p);
    let m = text::lemma_trimmed_end_cut(line.skip(p));
    assert(line.skip(p)[0] == '#');
    assert(text::trimmed(line)[0] == '#');
    if rest.len() > 0 && !text::is_space(rest[0]) && rest[0] != '=' {
        let other = pad + key + rest;
        assert(other[p] == key[0]);
        assert forall|i: int| 0 <= i < p implies text::is_space(#[trigger] other[i]) by {
            assert(other[i] == pad[i]);
        }
        text::lemma_trimmed_start_at(other, p);
        let s = other.skip(p);
        let k = text::lemma_trimmed_end_cut(s);
        let n = key.len() as int;
        assert(s[n] == rest[0]);
        assert(k > n);
        let t = s.take(k);
        let behind = t.skip(n);
        assert(behind[0] == rest[0]);
        text::lemma_trimmed_start_at(behind, 0);
        assert(behind.skip(0) =~= behind);
    }
}

/// A new setting goes below the header of its table whatever tables follow: where other
/// tables stand behind the one of the setting, theirs are not touched.
pub proof fn law_other_tables_are_passed_over(
    above: Seq<Seq<char>>,
    table: Seq<char>,
    key: Seq<char>,
    near: Seq<Seq<char>>,
    other: Seq<char>,
    far: Seq<Seq<char>>,
    ended: bool,
    literal: Seq<char>,
)
    requires
        plain_key(key),
        plain_table(table),
        plain_table(other),
        other != table,
        forall|i: int|
            0 <= i < above.len() ==> !opens_at(above, table, i) && !(#[trigger] above[i]).contains(
                '\n',
            ),
        forall|i: int|
            0 <= i < near.len() ==> passes_over(#[trigger] near[i], key) && !near[i].contains('\n'),
        forall|i: int|
            0 <= i < far.len() ==> !opens_at(far, table, i) && !(#[trigger] far[i]).contains('\n'),
        far.len() > 0 ==> far.last().len() > 0 || ended,
    ensures
        ({
            let head = above.push("["@ + table + "]"@);
            let tail = near.push("["@ + other + "]"@) + far;
            with_key(file_of(head + tail, ended), table, key, literal) == file_of(
                head.push(key + " = "@ + literal) + tail,
                ended,
            )
        }),
{
    let opening = "["@ + table + "]"@;
    let next = "["@ + other + "]"@;
    let head = above.push(opening);
    let tail = near.push(next) + far;
    let lines = head + tail;
    let h = above.len() as int;
    let o = h + 1 + near.len();
    let n = lines.len() as int;
    lemma_plain_header(table);
    lemma_plain_header(other);
    reveal_strlit("[");
    assert(lines[h] == opening);
    assert(lines[o] == next);
    assert forall|i: int| 0 <= i < n implies !(#[trigger] lines[i]).contains('\n') by {
        if i < h {
            assert(lines[i] == above[i]);
        } else if h < i < o {
            assert(lines[i] == near[i - h - 1]);
        } else if i > o {
            assert(lines[i] == far[i - o - 1]);
        }
    }
    if far.len() > 0 {
        assert(lines.last() == far.last());
    } else {
        assert(lines.last() == next);
    }
    lemma_file_of(lines, ended);
    assert forall|i: int| 0 <= i < n && i != h implies !opens_at(lines, table, i) by {
        if i < h {
            assert(lines[i] == above[i]);
            assert(!opens_at(above, table, i));
        } else if i < o {
            assert(lines[i] == near[i - h - 1]);
            lemma_passed_over(lines[i], key);
        } else if i > o {
            assert(lines[i] == far[i - o - 1]);
            assert(!opens_at(far, table, i - o - 1));
        }
    }
    assert forall|i: int| h < i < o implies passes_over(#[trigger] lines[i], key) by {
        assert(lines[i] == near[i - h - 1]);
    }
    assert(opens_at(lines, table, h));
    lemma_in_table(lines, table, key, h, o);
    assert forall|i: int| 0 <= i < n implies !assigns_at(lines, table, key, i) by {
        if i < h {
            lemma_not_in_table(lines, table, i);
        } else if i == o {
            assert(is_header(text::trimmed(lines[o])));
        } else if i > o {
            lemma_behind_header(lines, table, o, i);
        }
    }
    lemma_assignment_from(lines, table, key, 0);
    lemma_header_is(lines, table, n, h);
    assert(lines.insert(h + 1, assignment(key, literal)) =~= head.push(key + " = "@ + literal)
        + tail);
}

proof fn lemma_behind_header(lines: Seq<Seq<char>>, table: Seq<char>, o: int, i: int)
    requires
        0 <= o < i <= lines.len(),
        is_header(text::trimmed(lines[o])),
        forall|j: int| o <= j < i ==> !opens_at(lines, table, j),
    ensures
        table_at(lines, i) != table,
    decreases i,
{
    assert(!opens_at(lines, table, i - 1));
    if o < i - 1 {
        lemma_behind_header(lines, table, o, i - 1);
    }
}

/// Where a key is assigned several times, the first assignment counts and is replaced,
/// with the whitespace before it and the carriage return of its ending, and every other
/// line stays as it was.
pub proof fn law_the_first_assignment_counts(
    lines: Seq<Seq<char>>,
    i: int,
    ended: bool,
    table: Seq<char>,
    key: Seq<char>,
    literal: Seq<char>,
)
    requires
        0 <= i < lines.len(),
        forall|j: int| 0 <= j < lines.len() ==> !(#[trigger] lines[j]).contains('\n'),
        lines.last().len() > 0 || ended,
        assigns_at(lines, table, key, i),
        forall|j: int| 0 <= j < i ==> !assigns_at(lines, table, key, j),
    ensures
        ({
            let old_line = lines[i];
            let pad = old_line.take(old_line.len() - text::trimmed_start(old_line).len());
            let cr: Seq<char> = if old_line.last() == '\r' && (ended || i < lines.len() - 1) {
                seq!['\r']
            } else {
                seq![]
            };
            with_key(file_of(lines, ended), table, key, literal) == file_of(
                lines.update(i, pad + key + " = "@ + literal + cr),
                ended,
            )
        }),
{
    lemma_file_of(lines, ended);
    lemma_assignment_is(lines, table, key, 0, i);
    let old_line = lines[i];
    assert(old_line.len() > 0) by {
        if old_line.len() == 0 {
            text::lemma_trimmed(old_line);
            assert(text::trimmed(old_line).len() == 0);
            assert(text::trimmed(old_line).skip(key.len() as int).len() == 0);
        }
    }
    let pad = old_line.take(old_line.len() - text::trimmed_start(old_line).len());
    let cr: Seq<char> = if old_line.last() == '\r' && (ended || i < lines.len() - 1) {
        seq!['\r']
    } else {
        seq![]
    };
    assert(replacement(lines, i, ended, key, literal) =~= pad + key + " = "@ + literal + cr);
}

/// Where a table is opened several times and the key is assigned in none of them, the
/// assignment goes below the last of its headers.
pub proof fn law_the_last_header_counts(
    lines: Seq<Seq<char>>,
    h: int,
    ended: bool,
    table: Seq<char>,
    key: Seq<char>,
    literal: Seq<char>,
)
    requires
        0 <= h < lines.len(),
        forall|j: int| 0 <= j < lines.len() ==> !(#[trigger] lines[j]).contains('\n'),
        lines.last().len() > 0 || ended,
        forall|j: int| 0 <= j < lines.len() ==> !assigns_at(lines, table, key, j),
        opens_at(lines, table, h),
        forall|j: int| h < j < lines.len() ==> !opens_at(lines, table, j),
    ensures
        with_key(file_of(lines, ended), table, key, literal) == file_of(
            lines.insert(h + 1, key + " = "@ + literal),
            ended,
        ),
{
    lemma_file_of(lines, ended);
    lemma_assignment_from(lines, table, key, 0);
    lemma_header_is(lines, table, lines.len() as int, h);
}

proof fn lemma_header_is(lines: Seq<Seq<char>>, table: Seq<char>, n: int, h: int)
    requires
        0 <= h < n <= lines.len(),
        opens_at(lines, table, h),
        forall|j: int| h < j < n ==> !opens_at(lines, table, j),
    ensures
        header_before(lines, table, n) == Some(h),
    decreases n,
{
    if h < n - 1 {
        assert(!opens_at(lines, table, n - 1));
        lemma_header_is(lines, table, n - 1, h);
    }
}

/// An empty file gets the table and the assignment, and nothing else but the blank line
/// before them.
pub proof fn law_an_empty_file_gets_the_table(
    table: Seq<char>,
    key: Seq<char>,
    literal: Seq<char>,
)
    ensures
        with_key(seq![], table, key, literal) == "\n["@ + table + "]\n"@ + key + " = "@ + literal,
{
    reveal_strlit("\n[");
    reveal_strlit("]\n");
    reveal_strlit("[");
    reveal_strlit("]");
    let nothing: Seq<char> = seq![];
    let none: Seq<Seq<char>> = seq![];
    text::lemma_index_or_len_is(nothing, '\n', 0);
    assert(text::pieces(nothing, '\n') =~= seq![nothing]);
    assert(raw_lines(nothing) =~= none);
    let header = "["@ + table + "]"@;
    let line = key + " = "@ + literal;
    let made = none.push(nothing).push(header).push(line);
    assert(edited_lines(none, false, table, key, literal) =~= made);
    let sep = seq!['\n'];
    assert(made.drop_last() =~= none.push(nothing).push(header));
    assert(made.drop_last().drop_last() =~= none.push(nothing));
    assert(text::joined(none.push(nothing), sep) =~= nothing);
    assert(text::joined(made.drop_last(), sep) =~= sep + header);
    assert(text::joined(made, sep) =~= sep + header + sep + line);
    assert(with_key(nothing, table, key, literal) =~= "\n["@ + table + "]\n"@ + key + " = "@
        + literal);
}

/// Only what starts and ends in a bracket opens a table: a header with a comment behind
/// it does not, nor does a list that goes on; doubled brackets open a table like single
/// ones.
pub proof fn law_what_opens_a_table(line: Seq<char>, table: Seq<char>)
    requires
        plain_table(table),
    ensures
        text::trimmed(line).len() == 0 ==> !opens_at(seq![line], table, 0),
        text::trimmed(line).len() > 0 && text::trimmed(line)[0] != '[' ==> !opens_at(
            seq![line],
            table,
            0,
        ),
        text::trimmed(line).len() > 0 && text::trimmed(line).last() != ']' ==> !opens_at(
            seq![line],
            table,
            0,
        ),
        opens_at(seq!["[["@ + table + "]]"@], table, 0),
        forall|other: Seq<char>| #[trigger]
            plain_table(other) && other != table ==> !opens_at(
                seq!["["@ + other + "]"@],
                table,
                0,
            ),
{
    assert(seq![line][0] == line);
    reveal_strlit("[[");
    reveal_strlit("]]");
    reveal_strlit("[");
    reveal_strlit("]");
    let nothing: Seq<char> = seq![];
    let doubled = "[["@ + table + "]]"@;
    let lone = "["@ + table + "]"@;
    lemma_plain_header(table);
    text::law_trimming_leaves_what_stands_between(nothing, doubled, nothing);
    text::law_trimming_leaves_what_stands_between(nothing, lone, nothing);
    assert(nothing + doubled + nothing =~= doubled);
    assert(nothing + lone + nothing =~= lone);
    assert(doubled.drop_first() =~= lone.push(']'));
    lemma_doubled(table);
    assert(seq![doubled][0] == doubled);
    assert forall|other: Seq<char>| #[trigger] plain_table(other) && other != table implies
        !opens_at(seq!["["@ + other + "]"@], table, 0) by {
        lemma_plain_header(other);
        assert(seq!["["@ + other + "]"@][0] == "["@ + other + "]"@);
    }
}

proof fn lemma_doubled(table: Seq<char>)
    requires
        plain_table(table),
    ensures
        header_name("[["@ + table + "]]"@) == table,
{
    reveal_strlit("[[");
    reveal_strlit("]]");
    let doubled = "[["@ + table + "]]"@;
    let once = doubled.drop_first();
    let twice = once.drop_first();
    assert(doubled[0] == '[' && once[0] == '[');
    assert(twice =~= table + seq![']', ']']);
    assert(twice[0] == table[0]);
    assert(without_leading_brackets(twice) == twice);
    assert(without_leading_brackets(once) == twice);
    assert(without_leading_brackets(doubled) == twice);
    let a = twice.drop_last();
    assert(twice.last() == ']');
    assert(a =~= table + seq![']']);
    assert(a.last() == ']');
    assert(a.drop_last() =~= table);
    assert(without_trailing_brackets(table) == table);
    assert(without_trailing_brackets(a) == table);
    assert(without_trailing_brackets(twice) == table);
}

} // verus!
