//! As much of HTTP as one page on one machine needs.

use vstd::prelude::*;

use crate::text;

verus! {

/// A request body longer than this is a mistake or a probe, and is not read.
pub const BODY_LIMIT: usize = 1_000_000;

/// How long a read from a client may take, in milliseconds.
pub const READ_TIMEOUT_MS: u64 = 15_000;

// ---------------------------------------------------------------------------
// The head of a request
// ---------------------------------------------------------------------------

/// How many characters stand in `s` before the first whitespace.
pub open spec fn word_len(s: Seq<char>) -> nat
    decreases s.len(),
{
    if s.len() == 0 || text::is_space(s[0]) {
        0
    } else {
        1 + word_len(s.drop_first())
    }
}

/// The words of `s`: the stretches between whitespace.
pub open spec fn words(s: Seq<char>) -> Seq<Seq<char>>
    decreases s.len(),
    via words_decreases
{
    if s.len() == 0 {
        seq![]
    } else if text::is_space(s[0]) {
        words(s.drop_first())
    } else {
        let n = word_len(s) as int;
        seq![s.take(n)] + words(s.skip(n))
    }
}

#[via_fn]
proof fn words_decreases(s: Seq<char>) {
    lemma_word_len(s);
}

proof fn lemma_word_len(s: Seq<char>)
    ensures
        word_len(s) <= s.len(),
        s.len() > 0 && !text::is_space(s[0]) ==> word_len(s) > 0,
    decreases s.len(),
{
    if s.len() > 0 && !text::is_space(s[0]) {
        lemma_word_len(s.drop_first());
    }
}

/// The word at `i`, or `default` where there are too few.
pub open spec fn word_or(list: Seq<Seq<char>>, i: int, default: Seq<char>) -> Seq<char> {
    if i < list.len() {
        list[i]
    } else {
        default
    }
}

/// The words of `s`.
pub fn split_words(s: &str) -> (r: Vec<String>)
    ensures
        text::texts(r@) == words(s@),
{
    let v = text::chars_of(s);
    let n: usize = v.len();
    let mut r: Vec<String> = Vec::new();
    let mut i: usize = 0;
    assert(v@.skip(0) =~= v@);
    assert(text::texts(r@) + words(v@.skip(0)) =~= words(v@));
    while i < n
        invariant
            i <= n,
            n == v@.len(),
            words(v@) == text::texts(r@) + words(v@.skip(i as int)),
        decreases n - i,
    {
        let ghost here = v@.skip(i as int);
        assert(here[0] == v@[i as int]);
        if text::is_whitespace(v[i]) {
            assert(here.drop_first() =~= v@.skip(i + 1));
            i = i + 1;
        } else {
            let start: usize = i;
            let ghost whole = word_len(here);
            while i < n && !text::is_whitespace(v[i])
                invariant
                    start <= i <= n,
                    n == v@.len(),
                    here == v@.skip(start as int),
                    whole == word_len(here),
                    whole == (i - start) + word_len(v@.skip(i as int)),
                decreases n - i,
            {
                let ghost at = v@.skip(i as int);
                assert(at[0] == v@[i as int]);
                assert(at.drop_first() =~= v@.skip(i + 1));
                i = i + 1;
            }
            proof {
                let at = v@.skip(i as int);
                if i < n {
                    assert(at[0] == v@[i as int]);
                }
                assert(word_len(at) == 0);
                lemma_word_len(here);
                assert(here.skip(whole as int) =~= at);
                assert(here.take(whole as int) =~= v@.subrange(start as int, i as int));
            }
            let ghost before = text::texts(r@);
            let word = text::string_of(&v, start, i);
            r.push(word);
            assert(text::texts(r@) =~= before.push(word@));
            assert(before + (seq![word@] + words(v@.skip(i as int))) =~= before.push(word@) + words(
                v@.skip(i as int),
            ));
        }
    }
    assert(v@.skip(i as int).len() == 0);
    assert(text::texts(r@) + words(v@.skip(i as int)) =~= text::texts(r@));
    r
}

/// `c` in lower case, where it is an ASCII letter.
pub open spec fn lower(c: char) -> char {
    if 'A' <= c <= 'Z' {
        (c as u32 + 32) as char
    } else {
        c
    }
}

/// The text with its ASCII letters in lower case.
pub open spec fn lowered(s: Seq<char>) -> Seq<char> {
    s.map_values(|c: char| lower(c))
}

/// What a line behind the request line says.
#[derive(Clone, Copy, PartialEq, Eq, Debug, Structural)]
pub enum Header {
    /// That no header follows.
    End,
    /// How long the body is. A length that is no number counts as none.
    Length(usize),
    /// Nothing that matters here.
    Other,
}

/// What a line behind the request line says. No line at all ends the headers as
/// a blank one does.
pub open spec fn header_in(line: Option<Seq<char>>) -> Header {
    match line {
        None => Header::End,
        Some(h) => if text::blank(h) {
            Header::End
        } else {
            let name = "content-length:"@;
            if text::occurs_at(lowered(h), name, 0) {
                match text::bounded(
                    text::unsigned(text::trimmed(lowered(h).skip(name.len() as int))),
                    usize::MAX as int,
                ) {
                    Some(n) => Header::Length(n as usize),
                    None => Header::Length(0),
                }
            } else {
                Header::Other
            }
        },
    }
}

fn to_lower(s: &str) -> (r: String)
    ensures
        r@ == lowered(s@),
{
    let v = text::chars_of(s);
    let mut r = String::new();
    let mut i: usize = 0;
    while i < v.len()
        invariant
            i <= v@.len(),
            v@ == s@,
            r@ == lowered(v@.take(i as int)),
        decreases v@.len() - i,
    {
        let c: char = v[i];
        let l: char = if 'A' <= c && c <= 'Z' {
            let n: u8 = c as u8;
            (n + 32) as char
        } else {
            c
        };
        let ghost before = r@;
        r.push(l);
        assert(l == lower(c));
        assert(lowered(v@.take(i + 1)) =~= before.push(l));
        i = i + 1;
    }
    assert(v@.take(v@.len() as int) =~= v@);
    r
}

/// What a line behind the request line says. `None` is a connection that has
/// nothing more to read.
pub fn read_header(line: Option<&str>) -> (r: Header)
    ensures
        r == header_in(
            match line {
                Some(h) => Some(h@),
                None => None,
            },
        ),
{
    let h = match line {
        None => return Header::End,
        Some(h) => h,
    };
    if text::is_blank(h) {
        return Header::End;
    }
    let low = to_lower(h);
    if !text::starts_with(low.as_str(), "content-length:") {
        return Header::Other;
    }
    proof {
        reveal_strlit("content-length:");
    }
    let v = text::chars_of(low.as_str());
    let rest = text::string_of(&v, 15, v.len());
    assert(rest@ =~= lowered(h@).skip(15));
    let max: usize = usize::MAX;
    match text::parse_unsigned(text::trim(rest.as_str()).as_str(), max as u64) {
        Some(n) => Header::Length(n as usize),
        None => Header::Length(0),
    }
}

/// The head of a request: what is asked for, and how long the body is.
#[derive(Debug)]
pub struct RequestHead {
    pub method: String,
    pub path: String,
    pub length: usize,
}

/// The length that the headers give, up to the end of the headers. The last one
/// counts.
pub open spec fn body_length(lines: Seq<Seq<char>>) -> usize
    decreases lines.len(),
{
    if lines.len() == 0 {
        0
    } else {
        match header_in(Some(lines.last())) {
            Header::Length(n) => n,
            _ => body_length(lines.drop_last()),
        }
    }
}

/// Read the head of a request: its first line, and the lines behind it up to the
/// one that ends the headers.
pub fn read_head(first: &str, headers: &Vec<String>) -> (r: Result<RequestHead, String>)
    ensures
        match r {
            Ok(head) => {
                &&& head.method@ == word_or(words(first@), 0, ""@)
                &&& head.path@ == word_or(words(first@), 1, "/"@)
                &&& head.length == body_length(text::texts(headers@))
                &&& head.length <= BODY_LIMIT
            },
            Err(e) => body_length(text::texts(headers@)) > BODY_LIMIT && e@
                == "request body too large"@,
        },
{
    let parts = split_words(first);
    assert(text::texts(parts@).len() == parts@.len());
    let method = if parts.len() > 0 {
        assert(text::texts(parts@)[0] == parts@[0]@);
        parts[0].clone()
    } else {
        "".to_string()
    };
    let path = if parts.len() > 1 {
        assert(text::texts(parts@)[1] == parts@[1]@);
        parts[1].clone()
    } else {
        "/".to_string()
    };
    let ghost lines = text::texts(headers@);
    let mut length: usize = 0;
    let mut i: usize = 0;
    assert(lines.take(0).len() == 0);
    while i < headers.len()
        invariant
            i <= headers@.len(),
            lines == text::texts(headers@),
            length == body_length(lines.take(i as int)),
        decreases headers@.len() - i,
    {
        proof {
            let next = lines.take(i + 1);
            assert(next.drop_last() =~= lines.take(i as int));
            assert(next.last() == headers@[i as int]@);
        }
        match read_header(Some(headers[i].as_str())) {
            Header::Length(n) => {
                length = n;
            },
            _ => {},
        }
        i = i + 1;
    }
    assert(lines.take(lines.len() as int) =~= lines);
    if length > BODY_LIMIT {
        return Err("request body too large".to_string());
    }
    Ok(RequestHead { method, path, length })
}

/// The body of a request as text.
pub fn body_text(bytes: &[u8]) -> (r: String)
    ensures
        r@ == text::as_read(bytes@),
{
    text::read_bytes(bytes)
}

// ---------------------------------------------------------------------------
// Responses
// ---------------------------------------------------------------------------

/// The head of a response.
pub open spec fn response_head_text(
    status: Seq<char>,
    ctype: Seq<char>,
    body: Seq<char>,
) -> Seq<char> {
    "HTTP/1.1 "@ + status + "\r\nContent-Type: "@ + ctype + "\r\nContent-Length: "@ + text::decimal(
        vstd::utf8::encode_utf8(body).len(),
    ) + "\r\nCache-Control: no-store\r\nConnection: close\r\n\r\n"@
}

/// The head of a response. Its length counts the bytes of the body.
pub fn response_head(status: &str, ctype: &str, body: &str) -> (r: String)
    ensures
        r@ == response_head_text(status@, ctype@, body@),
{
    let bytes: &[u8] = body.as_bytes();
    let n: usize = bytes.len();
    let mut r = "HTTP/1.1 ".to_string();
    r.append(status);
    r.append("\r\nContent-Type: ");
    r.append(ctype);
    r.append("\r\nContent-Length: ");
    r.append(text::to_decimal(n as u128).as_str());
    r.append("\r\nCache-Control: no-store\r\nConnection: close\r\n\r\n");
    r
}

// ---------------------------------------------------------------------------
// What reading a request can be relied on for
// ---------------------------------------------------------------------------

/// `s` is a word: not empty, and without whitespace.
pub open spec fn is_word(s: Seq<char>) -> bool {
    s.len() > 0 && forall|i: int| 0 <= i < s.len() ==> !text::is_space(#[trigger] s[i])
}

proof fn lemma_word_len_is(word: Seq<char>, rest: Seq<char>)
    requires
        forall|i: int| 0 <= i < word.len() ==> !text::is_space(#[trigger] word[i]),
        rest.len() > 0 ==> text::is_space(rest[0]),
    ensures
        word_len(word + rest) == word.len(),
    decreases word.len(),
{
    let s = word + rest;
    if word.len() == 0 {
        assert(s =~= rest);
    } else {
        let tail = word.drop_first();
        assert(s[0] == word[0]);
        assert forall|i: int| 0 <= i < tail.len() implies !text::is_space(#[trigger] tail[i]) by {
            assert(tail[i] == word[i + 1]);
        }
        lemma_word_len_is(tail, rest);
        assert(s.drop_first() =~= tail + rest);
    }
}

/// Words are what stands between whitespace: a word ahead of whitespace is the
/// first, whitespace ahead of a text makes no difference, and nothing is added or
/// lost.
pub proof fn law_words_stand_between_whitespace(word: Seq<char>, space: char, rest: Seq<char>)
    requires
        is_word(word),
        text::is_space(space),
    ensures
        words(word + seq![space] + rest) == seq![word] + words(rest),
        words(seq![space] + rest) == words(rest),
        words(word) == seq![word],
        words(seq![]) == Seq::<Seq<char>>::empty(),
{
    let behind = seq![space] + rest;
    let s = word + seq![space] + rest;
    assert(s =~= word + behind);
    assert(behind[0] == space);
    assert(behind.drop_first() =~= rest);
    assert(words(behind) == words(rest));
    lemma_word_len_is(word, behind);
    assert(s[0] == word[0]);
    assert(s.take(word.len() as int) =~= word);
    assert(s.skip(word.len() as int) =~= behind);
    let nothing: Seq<char> = seq![];
    lemma_word_len_is(word, nothing);
    assert(word + nothing =~= word);
    assert(word.take(word.len() as int) =~= word);
    assert(word.skip(word.len() as int) =~= nothing);
    assert(words(nothing) =~= seq![]);
    assert(words(word) =~= seq![word]);
}

/// A request asks for what its first line says: the method, the path behind it, and
/// whatever else the line holds does not matter. Its body is as long as its headers
/// say, and is refused only where that is more than a million bytes.
pub proof fn law_a_request_asks_for_what_its_first_line_says(
    method: Seq<char>,
    path: Seq<char>,
    space: char,
    rest: Seq<char>,
    first: &str,
    headers: &Vec<String>,
    r: Result<RequestHead, String>,
)
    requires
        is_word(method),
        is_word(path),
        text::is_space(space),
        first@ == method + seq![' '] + (path + seq![space] + rest),
        call_ensures(read_head, (first, headers), r),
    ensures
        r matches Ok(head) ==> head.method@ == method && head.path@ == path && head.length
            == body_length(text::texts(headers@)),
        r is Err <==> body_length(text::texts(headers@)) > 1_000_000,
{
    law_words_stand_between_whitespace(method, ' ', path + seq![space] + rest);
    law_words_stand_between_whitespace(path, space, rest);
    let all = words(first@);
    assert(all[0] == method);
    assert(all[1] == path);
}

/// A header that gives a length gives it, in whatever case its name is written and
/// whatever whitespace stands around the number.
pub proof fn law_a_length_is_read_in_any_case(
    name: Seq<char>,
    before: Seq<char>,
    n: nat,
    behind: Seq<char>,
)
    requires
        lowered(name) == "content-length:"@,
        forall|i: int| 0 <= i < before.len() ==> text::is_space(#[trigger] before[i]),
        forall|i: int| 0 <= i < behind.len() ==> text::is_space(#[trigger] behind[i]),
        n <= usize::MAX,
    ensures
        header_in(Some(name + before + text::decimal(n) + behind)) == Header::Length(n as usize),
{
    reveal_strlit("content-length:");
    let line = name + before + text::decimal(n) + behind;
    let low = lowered(line);
    let d = text::decimal(n);
    let pat = "content-length:"@;
    assert(name.len() == pat.len());
    text::law_a_number_reads_back(n);
    text::law_only_digits_spell_a_number(d, 10);
    assert(d.len() > 0) by {
        if d.len() == 0 {
            assert(text::unsigned(d) is None);
        }
    }
    assert forall|i: int| 0 <= i < d.len() implies '0' <= #[trigger] d[i] <= '9' by {
        assert(text::digit_value(d[i]) < 10);
    }
    assert(low.subrange(0, pat.len() as int) =~= pat) by {
        assert forall|i: int| 0 <= i < pat.len() implies low[i] == #[trigger] pat[i] by {
            assert(lowered(name)[i] == lower(name[i]));
            assert(line[i] == name[i]);
        }
    }
    let rest = low.skip(pat.len() as int);
    assert forall|i: int| 0 <= i < rest.len() implies #[trigger] rest[i] == (before + d
        + behind)[i] by {
        let c = line[pat.len() + i];
        assert(rest[i] == lower(c));
        if i < before.len() {
            assert(c == before[i]);
        } else if i < before.len() + d.len() {
            assert(c == d[i - before.len()]);
        } else {
            assert(c == behind[i - before.len() - d.len()]);
        }
    }
    assert(rest =~= before + d + behind);
    text::law_trimming_leaves_what_stands_between(before, d, behind);
    text::lemma_blank(line);
    assert(lowered(name)[0] == lower(name[0]));
    assert(line[0] == name[0]);
    assert(lower(name[0]) == 'c');
    assert(!text::is_space(line[0]));
}

/// A blank line ends the headers, and so does the end of the connection; a header
/// that gives no length says nothing about it.
pub proof fn law_what_other_lines_say(line: Seq<char>)
    ensures
        header_in(None) == Header::End,
        header_in(Some(line)) == Header::End <==> forall|i: int|
            0 <= i < line.len() ==> text::is_space(#[trigger] line[i]),
        !text::occurs_at(lowered(line), "content-length:"@, 0) && !text::blank(line) ==> header_in(
            Some(line),
        ) == Header::Other,
{
    text::lemma_blank(line);
}

/// The last header that gives a length counts, whatever stands around it; without
/// one there is no body.
pub proof fn law_the_last_length_counts(above: Seq<Seq<char>>, line: Seq<char>, below: Seq<Seq<char>>)
    requires
        forall|i: int|
            0 <= i < below.len() ==> !(header_in(Some(#[trigger] below[i])) is Length),
    ensures
        header_in(Some(line)) matches Header::Length(n) ==> body_length(above.push(line) + below)
            == n,
        body_length(below) == 0,
    decreases below.len(),
{
    let all = above.push(line) + below;
    if below.len() == 0 {
        assert(all =~= above.push(line));
        assert(all.last() == line);
    } else {
        let front = below.drop_last();
        assert forall|i: int| 0 <= i < front.len() implies !(header_in(Some(#[trigger] front[i]))
            is Length) by {
            assert(front[i] == below[i]);
        }
        law_the_last_length_counts(above, line, front);
        assert(all.last() == below[below.len() - 1]);
        assert(all.drop_last() =~= above.push(line) + front);
        assert(below.last() == below[below.len() - 1]);
    }
}

/// A response says how many bytes its body has, and ends its head with an empty
/// line.
pub proof fn law_a_response_tells_its_length(status: Seq<char>, ctype: Seq<char>, body: Seq<char>)
    ensures
        ({
            let head = response_head_text(status, ctype, body);
            &&& text::occurs_at(head, "HTTP/1.1 "@ + status + "\r\n"@, 0)
            &&& text::holds(head, "\r\nContent-Type: "@ + ctype + "\r\n"@)
            &&& text::holds(
                head,
                "\r\nContent-Length: "@ + text::decimal(vstd::utf8::encode_utf8(body).len())
                    + "\r\n"@,
            )
            &&& "\r\n\r\n"@.is_suffix_of(head)
        }),
{
    reveal_strlit("\r\n");
    reveal_strlit("\r\n\r\n");
    reveal_strlit("HTTP/1.1 ");
    reveal_strlit("\r\nContent-Type: ");
    reveal_strlit("\r\nContent-Length: ");
    reveal_strlit("\r\nCache-Control: no-store\r\nConnection: close\r\n\r\n");
    let head = response_head_text(status, ctype, body);
    let d = text::decimal(vstd::utf8::encode_utf8(body).len());
    let a = "HTTP/1.1 "@ + status + "\r\n"@;
    assert(head.subrange(0, a.len() as int) =~= a);
    let b = "\r\nContent-Type: "@ + ctype + "\r\n"@;
    let i = 9 + status.len() as int;
    assert(head.subrange(i, i + b.len()) =~= b);
    assert(text::occurs_at(head, b, i));
    let c = "\r\nContent-Length: "@ + d + "\r\n"@;
    let j = i + "\r\nContent-Type: "@.len() + ctype.len();
    assert(head.subrange(j, j + c.len()) =~= c);
    assert(text::occurs_at(head, c, j));
    assert("\r\n\r\n"@ =~= head.subrange(head.len() - 4, head.len() as int));
}

/// The letters of ASCII have a lower case, the one that differs in one bit, and every
/// other character is left as it is.
pub proof fn law_lower_case_is_that_of_ascii(s: Seq<char>, i: int)
    requires
        0 <= i < s.len(),
    ensures
        lowered(s).len() == s.len(),
        'A' <= s[i] <= 'Z' ==> lowered(s)[i] as int == s[i] as int + 32,
        !('A' <= s[i] <= 'Z') ==> lowered(s)[i] == s[i],
{
}

/// A length that is no number counts as none.
pub proof fn law_a_length_that_is_no_number_is_none(name: Seq<char>, given: Seq<char>)
    requires
        lowered(name) == "content-length:"@,
        text::unsigned(text::trimmed(lowered(given))) is None,
    ensures
        header_in(Some(name + given)) == Header::Length(0),
{
    reveal_strlit("content-length:");
    let line = name + given;
    let low = lowered(line);
    let pat = "content-length:"@;
    assert(name.len() == pat.len());
    assert(low =~= lowered(name) + lowered(given));
    assert(low.subrange(0, pat.len() as int) =~= pat);
    assert(low.skip(pat.len() as int) =~= lowered(given));
    text::lemma_blank(line);
    assert(lowered(name)[0] == lower(name[0]));
    assert(line[0] == name[0]);
    assert(lower(name[0]) == 'c');
    assert(!text::is_space(line[0]));
}

/// A first line that ends early asks for less: without a path it asks for the page, and
/// an empty one asks by no method at all.
pub proof fn law_a_first_line_may_end_early(
    method: Seq<char>,
    first: &str,
    headers: &Vec<String>,
    r: Result<RequestHead, String>,
)
    requires
        call_ensures(read_head, (first, headers), r),
        method.len() > 0 ==> is_word(method),
        first@ == method,
    ensures
        r matches Ok(head) ==> head.method@ == method && head.path@ == "/"@,
{
    reveal_strlit("");
    if method.len() > 0 {
        law_words_stand_between_whitespace(method, ' ', method);
    } else {
        assert(words(method) =~= seq![]);
        assert(method =~= ""@);
    }
}

/// The body of a request is what was sent, to the letter where it is text.
pub proof fn law_a_body_is_what_was_sent(bytes: &[u8], sent: Seq<char>, r: String)
    requires
        call_ensures(body_text, (bytes,), r),
        bytes@ == vstd::utf8::encode_utf8(sent),
    ensures
        r@ == sent,
{
    text::law_valid_text_is_read_unaltered(sent);
}

} // verus!
