//! The little JSON the config page speaks: strings written into flat objects,
//! and strings read back out of them.

use vstd::prelude::*;

use crate::text;

verus! {

/// The character of a hexadecimal digit, in lower case.
pub open spec fn hex_char(d: int) -> char {
    if d < 10 {
        text::digit_char(d)
    } else if d == 10 { 'a' } else if d == 11 { 'b' } else if d == 12 { 'c' }
    else if d == 13 { 'd' } else if d == 14 { 'e' } else { 'f' }
}

/// `\u` and four hexadecimal digits, for a character below U+0100.
pub open spec fn unicode_escape(c: char) -> Seq<char> {
    seq!['\\', 'u', '0', '0', hex_char(c as int / 16), hex_char(c as int % 16)]
}

/// Append `\u` and four hexadecimal digits.
pub(crate) fn push_unicode_escape(out: &mut String, c: char)
    requires
        c < '\u{100}',
    ensures
        final(out)@ == old(out)@ + unicode_escape(c),
{
    let n: u32 = c as u32;
    out.push('\\');
    out.push('u');
    out.push('0');
    out.push('0');
    out.push(hex_digit(n / 16));
    out.push(hex_digit(n % 16));
    assert(out@ =~= old(out)@ + unicode_escape(c));
}

fn hex_digit(d: u32) -> (c: char)
    requires
        d < 16,
    ensures
        c == hex_char(d as int),
{
    if d < 10 {
        text::digit(d as u128)
    } else if d == 10 { 'a' } else if d == 11 { 'b' } else if d == 12 { 'c' }
    else if d == 13 { 'd' } else if d == 14 { 'e' } else { 'f' }
}

/// One character as it stands inside a JSON string.
pub open spec fn escaped_char(c: char) -> Seq<char> {
    if c == '"' {
        seq!['\\', '"']
    } else if c == '\\' {
        seq!['\\', '\\']
    } else if c == '\n' {
        seq!['\\', 'n']
    } else if c == '\r' {
        seq!['\\', 'r']
    } else if c == '\t' {
        seq!['\\', 't']
    } else if c <= '\u{1f}' {
        unicode_escape(c)
    } else {
        seq![c]
    }
}

/// `s` as it stands inside a JSON string.
pub open spec fn escaped(s: Seq<char>) -> Seq<char>
    decreases s.len(),
{
    if s.len() == 0 {
        seq![]
    } else {
        escaped(s.drop_last()) + escaped_char(s.last())
    }
}

/// Escape `s` so that it can stand inside a JSON string.
pub fn esc(s: &str) -> (r: String)
    ensures
        r@ == escaped(s@),
{
    let v = text::chars_of(s);
    let mut out = String::new();
    let mut i: usize = 0;
    assert(v@.take(0).len() == 0);
    while i < v.len()
        invariant
            i <= v@.len(),
            v@ == s@,
            out@ == escaped(v@.take(i as int)),
        decreases v@.len() - i,
    {
        let c: char = v[i];
        let ghost before = out@;
        if c == '"' {
            out.push('\\');
            out.push('"');
        } else if c == '\\' {
            out.push('\\');
            out.push('\\');
        } else if c == '\n' {
            out.push('\\');
            out.push('n');
        } else if c == '\r' {
            out.push('\\');
            out.push('r');
        } else if c == '\t' {
            out.push('\\');
            out.push('t');
        } else if c <= '\u{1f}' {
            push_unicode_escape(&mut out, c);
        } else {
            out.push(c);
        }
        proof {
            assert(out@ =~= before + escaped_char(c));
            let next = v@.take(i + 1);
            assert(next.drop_last() =~= v@.take(i as int));
            assert(next.last() == c);
        }
        i = i + 1;
    }
    assert(v@.take(v@.len() as int) =~= v@);
    out
}

// ---------------------------------------------------------------------------
// Reading a field
// ---------------------------------------------------------------------------

/// The value of a hexadecimal digit, in either case.
pub open spec fn hex_value(c: char) -> Option<int> {
    if '0' <= c <= '9' {
        Some(c as int - '0' as int)
    } else if 'a' <= c <= 'f' {
        Some(c as int - 'a' as int + 10)
    } else if 'A' <= c <= 'F' {
        Some(c as int - 'A' as int + 10)
    } else {
        None
    }
}

/// The number that the first four characters of `s` write in hexadecimal.
pub open spec fn hex_number(s: Seq<char>) -> Option<int> {
    if s.len() < 4 {
        None
    } else {
        match (hex_value(s[0]), hex_value(s[1]), hex_value(s[2]), hex_value(s[3])) {
            (Some(a), Some(b), Some(c), Some(d)) => Some(((a * 16 + b) * 16 + c) * 16 + d),
            _ => None,
        }
    }
}

/// The character whose number the first four characters of `s` write in
/// hexadecimal. Half of a surrogate pair is no character.
pub open spec fn numeric(s: Seq<char>) -> Option<char> {
    match hex_number(s) {
        Some(n) => if n < 0xd800 || n >= 0xe000 {
            Some(n as char)
        } else {
            None
        },
        None => None,
    }
}

/// `char::from_u32`: the character with a number. The numbers from U+D800 to
/// U+DFFF and those beyond U+10FFFF have none.
pub assume_specification[ char::from_u32 ](i: u32) -> (r: Option<char>)
    ensures
        r == if i < 0xd800 || 0xe000 <= i < 0x110000 {
            Some(i as char)
        } else {
            None::<char>
        },
;

fn read_hex(c: char) -> (r: Option<u32>)
    ensures
        match r {
            Some(d) => d < 16 && hex_value(c) == Some(d as int),
            None => hex_value(c) is None,
        },
{
    if '0' <= c && c <= '9' {
        Some(c as u32 - '0' as u32)
    } else if 'a' <= c && c <= 'f' {
        Some(c as u32 - 'a' as u32 + 10)
    } else if 'A' <= c && c <= 'F' {
        Some(c as u32 - 'A' as u32 + 10)
    } else {
        None
    }
}

/// The character whose number the four characters from `from` write.
fn read_numeric(v: &Vec<char>, from: usize) -> (r: Option<char>)
    requires
        from <= v@.len(),
    ensures
        r == numeric(v@.skip(from as int)),
        r is Some ==> from + 4 <= v@.len(),
{
    let ghost s = v@.skip(from as int);
    if v.len() - from < 4 {
        return None;
    }
    assert(s[0] == v@[from as int] && s[1] == v@[from + 1] && s[2] == v@[from + 2] && s[3]
        == v@[from + 3]);
    match (read_hex(v[from]), read_hex(v[from + 1]), read_hex(v[from + 2]), read_hex(v[from + 3])) {
        (Some(a), Some(b), Some(c), Some(d)) => {
            let n: u32 = ((a * 16 + b) * 16 + c) * 16 + d;
            assert(hex_number(s) == Some(n as int));
            char::from_u32(n)
        },
        _ => None,
    }
}

/// The character an escape of one letter stands for. Escapes other than those
/// below stand for the character after the backslash.
pub open spec fn unescaped(c: char) -> char {
    if c == 'n' {
        '\n'
    } else if c == 'r' {
        '\r'
    } else if c == 't' {
        '\t'
    } else if c == 'b' {
        '\u{8}'
    } else if c == 'f' {
        '\u{c}'
    } else {
        c
    }
}

/// What the escape at the start of `s` stands for, and how many characters it
/// takes up.
pub open spec fn escape_in(s: Seq<char>) -> (char, int) {
    match numeric(s.skip(2)) {
        Some(c) => if s[1] == 'u' {
            (c, 6)
        } else {
            (unescaped(s[1]), 2)
        },
        None => (unescaped(s[1]), 2),
    }
}

/// The text of a JSON string, from behind its opening quote up to the closing
/// one, or to the end where none closes it. A backslash that ends the text
/// stands for itself.
pub open spec fn string_body(s: Seq<char>) -> Seq<char>
    decreases s.len(),
{
    if s.len() == 0 || s[0] == '"' {
        seq![]
    } else if s[0] == '\\' && s.len() > 1 {
        seq![escape_in(s).0] + string_body(s.skip(escape_in(s).1))
    } else {
        seq![s[0]] + string_body(s.drop_first())
    }
}

/// Every escape in the text of a JSON string is of an ASCII character.
pub open spec fn ascii_escapes(s: Seq<char>) -> bool
    decreases s.len(),
{
    if s.len() == 0 || s[0] == '"' {
        true
    } else if s[0] == '\\' && s.len() > 1 {
        s[1] < '\u{80}' && ascii_escapes(s.skip(escape_in(s).1))
    } else {
        ascii_escapes(s.drop_first())
    }
}

/// What follows the first occurrence of `pat`.
pub open spec fn rest_after(s: Seq<char>, pat: Seq<char>) -> Option<Seq<char>> {
    match text::position(s, pat) {
        Some(i) => Some(s.skip(i + pat.len())),
        None => None,
    }
}

/// What follows the opening quote of the string under `key`: the first quote
/// behind the first colon behind the first occurrence of the quoted key.
pub open spec fn value_start(body: Seq<char>, key: Seq<char>) -> Option<Seq<char>> {
    match rest_after(body, seq!['"'] + key + seq!['"']) {
        None => None,
        Some(a) => match rest_after(a, seq![':']) {
            None => None,
            Some(b) => rest_after(b, seq!['"']),
        },
    }
}

/// The string under `key` in a flat JSON object.
pub open spec fn field_value(body: Seq<char>, key: Seq<char>) -> Option<Seq<char>> {
    match value_start(body, key) {
        None => None,
        Some(s) => Some(string_body(s)),
    }
}

/// The string under `key`, where there is one, can be read: it escapes ASCII
/// characters only.
pub open spec fn readable(body: Seq<char>, key: Seq<char>) -> bool {
    match value_start(body, key) {
        None => true,
        Some(s) => ascii_escapes(s),
    }
}

/// Where what follows the first occurrence of `pat` in `v[from..]` starts.
fn find_after(v: &Vec<char>, from: usize, pat: &Vec<char>) -> (r: Option<usize>)
    requires
        from <= v@.len(),
    ensures
        match r {
            Some(i) => from <= i <= v@.len() && rest_after(v@.skip(from as int), pat@) == Some(
                v@.skip(i as int),
            ),
            None => rest_after(v@.skip(from as int), pat@) is None,
        },
{
    let n: usize = v.len();
    let tail_text = text::string_of(v, from, n);
    let tail = text::chars_of(tail_text.as_str());
    assert(tail@ =~= v@.skip(from as int));
    match text::find_in(&tail, pat) {
        Some(i) => {
            assert(i + pat@.len() <= tail@.len());
            assert(v@.skip(from as int).skip(i + pat@.len()) =~= v@.skip(from + i + pat@.len()));
            Some(from + i + pat.len())
        },
        None => None,
    }
}

fn find_value(body: &Vec<char>, key: &str) -> (r: Option<usize>)
    ensures
        match r {
            Some(i) => i <= body@.len() && value_start(body@, key@) == Some(body@.skip(i as int)),
            None => value_start(body@, key@) is None,
        },
{
    let mut quoted: Vec<char> = Vec::new();
    quoted.push('"');
    let name = text::chars_of(key);
    let mut k: usize = 0;
    while k < name.len()
        invariant
            k <= name@.len(),
            quoted@ == seq!['"'] + name@.take(k as int),
        decreases name@.len() - k,
    {
        quoted.push(name[k]);
        assert(name@.take(k + 1) =~= name@.take(k as int).push(name@[k as int]));
        k = k + 1;
    }
    quoted.push('"');
    assert(name@.take(name@.len() as int) =~= name@);
    assert(quoted@ =~= seq!['"'] + key@ + seq!['"']);
    assert(body@.skip(0) =~= body@);
    let colon: Vec<char> = vec![':'];
    let quote: Vec<char> = vec!['"'];
    assert(colon@ =~= seq![':']);
    assert(quote@ =~= seq!['"']);
    match find_after(body, 0, &quoted) {
        None => None,
        Some(a) => match find_after(body, a, &colon) {
            None => None,
            Some(b) => find_after(body, b, &quote),
        },
    }
}

/// What the escape at `at` stands for, and how many characters it takes up.
fn read_escape(v: &Vec<char>, at: usize) -> (r: (char, usize))
    requires
        at + 1 < v@.len(),
    ensures
        r.0 == escape_in(v@.skip(at as int)).0,
        r.1 == escape_in(v@.skip(at as int)).1,
        2 <= r.1 <= v@.len() - at,
{
    let ghost here = v@.skip(at as int);
    assert(here.skip(2) =~= v@.skip(at + 2));
    assert(at + 1 < v.len());
    let next: usize = at + 1;
    let e: char = v[next];
    if e == 'u' {
        match read_numeric(v, next + 1) {
            Some(c) => return (c, 6),
            None => {},
        }
    }
    if e == 'n' {
        ('\n', 2)
    } else if e == 'r' {
        ('\r', 2)
    } else if e == 't' {
        ('\t', 2)
    } else if e == 'b' {
        ('\u{8}', 2)
    } else if e == 'f' {
        ('\u{c}', 2)
    } else {
        (e, 2)
    }
}

/// Whether the string under `key` can be read: whether every escape in it is of
/// an ASCII character.
pub fn is_readable(body: &str, key: &str) -> (r: bool)
    ensures
        r == readable(body@, key@),
{
    let v = text::chars_of(body);
    let start: usize = match find_value(&v, key) {
        None => {
            return true;
        },
        Some(i) => i,
    };
    let n: usize = v.len();
    let mut j: usize = start;
    while j < n
        invariant
            start <= j <= n,
            n == v@.len(),
            v@ == body@,
            value_start(body@, key@) == Some(v@.skip(start as int)),
            ascii_escapes(v@.skip(start as int)) == ascii_escapes(v@.skip(j as int)),
        decreases n - j,
    {
        let ghost here = v@.skip(j as int);
        assert(here.drop_first() =~= v@.skip(j + 1));
        if v[j] == '"' {
            return true;
        }
        if v[j] == '\\' && j + 1 < n {
            if v[j + 1] >= '\u{80}' {
                return false;
            }
            let (_, step) = read_escape(&v, j);
            assert(here.skip(step as int) =~= v@.skip(j + step));
            j = j + step;
        } else {
            j = j + 1;
        }
    }
    true
}

/// Pull one string field out of a flat JSON object.
pub fn field(body: &str, key: &str) -> (r: Option<String>)
    requires
        readable(body@, key@),
    ensures
        text::opt_text(r) == field_value(body@, key@),
{
    let v = text::chars_of(body);
    let start: usize = match find_value(&v, key) {
        None => {
            return None;
        },
        Some(i) => i,
    };
    let n: usize = v.len();
    let mut out = String::new();
    let mut j: usize = start;
    assert(out@ + string_body(v@.skip(j as int)) =~= string_body(v@.skip(j as int)));
    while j < n
        invariant
            start <= j <= n,
            n == v@.len(),
            v@ == body@,
            value_start(body@, key@) == Some(v@.skip(start as int)),
            out@ + string_body(v@.skip(j as int)) == string_body(v@.skip(start as int)),
        decreases n - j,
    {
        let ghost here = v@.skip(j as int);
        let ghost before = out@;
        assert(here.drop_first() =~= v@.skip(j + 1));
        let c: char = v[j];
        if c == '"' {
            assert(out@ =~= out@ + string_body(here));
            return Some(out);
        }
        if c == '\\' && j + 1 < n {
            let (e, step) = read_escape(&v, j);
            assert(here.skip(step as int) =~= v@.skip(j + step));
            out.push(e);
            assert(before + (seq![e] + string_body(v@.skip(j + step))) =~= out@ + string_body(
                v@.skip(j + step),
            ));
            j = j + step;
        } else {
            out.push(c);
            assert(before + (seq![c] + string_body(v@.skip(j + 1))) =~= out@ + string_body(
                v@.skip(j + 1),
            ));
            j = j + 1;
        }
    }
    assert(out@ =~= out@ + string_body(v@.skip(j as int)));
    Some(out)
}

// ---------------------------------------------------------------------------
// Reading back what was written
// ---------------------------------------------------------------------------

/// A flat object with one string field.
pub open spec fn object_with(key: Seq<char>, value: Seq<char>) -> Seq<char> {
    seq!['{', '"'] + key + seq!['"', ':', '"'] + escaped(value) + seq!['"', '}']
}

proof fn lemma_escaped_front(s: Seq<char>)
    requires
        s.len() > 0,
    ensures
        escaped(s) == escaped_char(s[0]) + escaped(s.drop_first()),
    decreases s.len(),
{
    if s.len() == 1 {
        assert(s.drop_last().len() == 0);
        assert(s.drop_first().len() == 0);
        assert(escaped(s.drop_last()) == Seq::<char>::empty());
        assert(escaped(s.drop_first()) == Seq::<char>::empty());
        assert(escaped(s) =~= escaped_char(s[0]));
        assert(escaped_char(s[0]) + escaped(s.drop_first()) =~= escaped_char(s[0]));
    } else {
        let t = s.drop_last();
        lemma_escaped_front(t);
        assert(t.drop_first() =~= s.drop_first().drop_last());
        assert(t[0] == s[0]);
        assert(s.drop_first().last() == s.last());
        assert(escaped(s) =~= escaped_char(s[0]) + (escaped(t.drop_first()) + escaped_char(
            s.last(),
        )));
    }
}

/// The digits of a numeric escape name its character.
pub proof fn lemma_unicode_escape(c: char, tail: Seq<char>)
    requires
        c < '\u{100}',
    ensures
        numeric((unicode_escape(c) + tail).skip(2)) == Some(c),
{
    let n = c as int;
    let s = (unicode_escape(c) + tail).skip(2);
    assert(s[0] == '0' && s[1] == '0' && s[2] == hex_char(n / 16) && s[3] == hex_char(n % 16));
    assert(n == (n / 16) * 16 + n % 16);
    lemma_hex_char(n / 16);
    lemma_hex_char(n % 16);
    assert(hex_number(s) == Some(n));
}

proof fn lemma_string_body_of_escaped(s: Seq<char>, tail: Seq<char>)
    requires
        tail.len() > 0,
        tail[0] == '"',
    ensures
        string_body(escaped(s) + tail) == s,
        ascii_escapes(escaped(s) + tail),
    decreases s.len(),
{
    if s.len() == 0 {
        assert(escaped(s) + tail =~= tail);
        assert(string_body(tail) =~= s);
    } else {
        let rest = s.drop_first();
        let c = s[0];
        lemma_escaped_front(s);
        lemma_string_body_of_escaped(rest, tail);
        let whole = escaped(s) + tail;
        let after = escaped(rest) + tail;
        assert(whole =~= escaped_char(c) + after);
        if escaped_char(c).len() == 1 {
            assert(whole[0] == c);
            assert(whole.drop_first() =~= after);
        } else {
            assert(whole[0] == '\\');
            assert(whole[1] == escaped_char(c)[1]);
            if escaped_char(c).len() == 2 {
                assert(whole.skip(2) =~= after);
                assert(unescaped(whole[1]) == c);
            } else {
                lemma_unicode_escape(c, after);
                assert(whole.skip(6) =~= after);
            }
        }
        assert(seq![c] + rest =~= s);
    }
}

/// Reading a field gives back what was escaped into it, and it can always be
/// read, whatever the text holds.
pub proof fn law_field_reads_back_what_esc_wrote(key: Seq<char>, value: Seq<char>)
    ensures
        readable(object_with(key, value), key),
        field_value(object_with(key, value), key) == Some(value),
{
    let body = object_with(key, value);
    let name = seq!['"'] + key + seq!['"'];
    let a = seq![':', '"'] + escaped(value) + seq!['"', '}'];
    let b = seq!['"'] + escaped(value) + seq!['"', '}'];
    let c = escaped(value) + seq!['"', '}'];
    assert(body.subrange(1, 1int + name.len()) =~= name);
    assert(!text::occurs_at(body, name, 0)) by {
        if text::occurs_at(body, name, 0) {
            assert(body.subrange(0, name.len() as int)[0] == name[0]);
        }
    }
    text::lemma_position_is(body, name, 1);
    assert(body.skip(1int + name.len()) =~= a);
    assert(a.subrange(0, 1) =~= seq![':']);
    text::lemma_position_is(a, seq![':'], 0);
    assert(a.skip(1) =~= b);
    assert(b.subrange(0, 1) =~= seq!['"']);
    text::lemma_position_is(b, seq!['"'], 0);
    assert(b.skip(1) =~= c);
    lemma_string_body_of_escaped(value, seq!['"', '}']);
}

/// How many characters of `s`, which stands behind the opening quote of a JSON
/// string, stand before the closing one.
pub open spec fn string_length(s: Seq<char>) -> int
    decreases s.len(),
{
    if s.len() == 0 || s[0] == '"' {
        0
    } else if s[0] == '\\' && s.len() > 1 {
        2 + string_length(s.skip(2))
    } else {
        1 + string_length(s.drop_first())
    }
}

proof fn lemma_ordinary_front(front: Seq<char>, after: Seq<char>)
    requires
        forall|i: int| 0 <= i < front.len() ==> #[trigger] front[i] != '"' && front[i] != '\\',
    ensures
        string_length(front + after) == front.len() + string_length(after),
    decreases front.len(),
{
    if front.len() == 0 {
        assert(front + after =~= after);
    } else {
        let rest = front.drop_first();
        assert forall|i: int| 0 <= i < rest.len() implies #[trigger] rest[i] != '"' && rest[i]
            != '\\' by {
            assert(rest[i] == front[i + 1]);
        }
        lemma_ordinary_front(rest, after);
        assert((front + after)[0] == front[0]);
        assert((front + after).drop_first() =~= rest + after);
    }
}

/// Whatever a text holds, it cannot end the JSON string that it is escaped into:
/// the string ends at the quote that was put behind it.
pub proof fn law_escaped_text_cannot_end_its_string(value: Seq<char>, rest: Seq<char>)
    ensures
        string_length(escaped(value) + seq!['"'] + rest) == escaped(value).len(),
    decreases value.len(),
{
    let whole = escaped(value) + seq!['"'] + rest;
    if value.len() == 0 {
        assert(whole[0] == '"');
    } else {
        let c = value[0];
        let after = escaped(value.drop_first()) + seq!['"'] + rest;
        lemma_escaped_front(value);
        law_escaped_text_cannot_end_its_string(value.drop_first(), rest);
        assert(whole =~= escaped_char(c) + after);
        if escaped_char(c).len() == 1 {
            assert(whole[0] == c);
            assert(whole.drop_first() =~= after);
        } else {
            assert(whole[0] == '\\');
            assert(whole[1] == escaped_char(c)[1]);
            if escaped_char(c).len() == 2 {
                assert(whole.skip(2) =~= after);
            } else {
                let tail = escaped_char(c).skip(2);
                assert(whole.skip(2) =~= tail + after);
                lemma_hex_digits(c);
                lemma_ordinary_front(tail, after);
            }
        }
    }
}

proof fn lemma_hex_digits(c: char)
    requires
        c <= '\u{1f}',
    ensures
        forall|i: int|
            0 <= i < unicode_escape(c).skip(2).len() ==> #[trigger] unicode_escape(c).skip(2)[i]
                != '"' && unicode_escape(c).skip(2)[i] != '\\',
{
    lemma_hex_char(c as int / 16);
    lemma_hex_char(c as int % 16);
}

proof fn lemma_hex_char(d: int)
    ensures
        hex_char(d) != '"',
        hex_char(d) != '\\',
        0 <= d < 16 ==> hex_value(hex_char(d)) == Some(d),
{
}

/// A field is read where it stands: the string behind the first occurrence of the
/// quoted key, whatever stands before it, between it and its colon, and behind it.
/// It reads back to the letter.
pub proof fn law_a_field_is_read_where_it_stands(
    front: Seq<char>,
    key: Seq<char>,
    gap: Seq<char>,
    lead: Seq<char>,
    value: Seq<char>,
    rest: Seq<char>,
)
    requires
        !gap.contains(':'),
        !lead.contains('"'),
        text::first_at(
            front + (seq!['"'] + key + seq!['"']) + gap + seq![':'] + lead + seq!['"'] + escaped(value)
                + seq!['"'] + rest,
            seq!['"'] + key + seq!['"'],
            front.len() as int,
        ),
    ensures
        ({
            let body = front + (seq!['"'] + key + seq!['"']) + gap + seq![':'] + lead + seq!['"']
                + escaped(value) + seq!['"'] + rest;
            readable(body, key) && field_value(body, key) == Some(value)
        }),
{
    let name = seq!['"'] + key + seq!['"'];
    let tail = escaped(value) + seq!['"'] + rest;
    let body = front + name + gap + seq![':'] + lead + seq!['"'] + escaped(value) + seq!['"'] + rest;
    text::lemma_position_is(body, name, front.len() as int);
    let a = gap + seq![':'] + lead + seq!['"'] + tail;
    assert(body.skip(front.len() as int + name.len()) =~= a);
    lemma_rest_after_char(gap, ':', lead + seq!['"'] + tail);
    assert(gap + seq![':'] + (lead + seq!['"'] + tail) =~= a);
    lemma_rest_after_char(lead, '"', tail);
    assert(tail =~= escaped(value) + (seq!['"'] + rest));
    lemma_string_body_of_escaped(value, seq!['"'] + rest);
}

proof fn lemma_rest_after_char(gap: Seq<char>, c: char, rest: Seq<char>)
    requires
        !gap.contains(c),
    ensures
        rest_after(gap + seq![c] + rest, seq![c]) == Some(rest),
{
    let s = gap + seq![c] + rest;
    let n = gap.len() as int;
    assert(s.subrange(n, n + 1) =~= seq![c]);
    assert forall|j: int| 0 <= j < n implies !text::occurs_at(s, seq![c], j) by {
        if text::occurs_at(s, seq![c], j) {
            assert(s.subrange(j, j + 1)[0] == s[j]);
            assert(s[j] == gap[j]);
            assert(gap.contains(gap[j]));
        }
    }
    text::lemma_position_is(s, seq![c], n);
    assert(s.skip(n + 1) =~= rest);
}

/// A key that does not stand in the body in quotes has no value.
pub proof fn law_a_missing_field_is_none(body: Seq<char>, key: Seq<char>)
    requires
        !text::holds(body, seq!['"'] + key + seq!['"']),
    ensures
        field_value(body, key) is None,
        readable(body, key),
{
}

/// The escapes of JSON stand for what JSON says, and the text goes on behind them;
/// an ordinary character stands for itself, and a quote ends the string.
pub proof fn law_escapes_stand_for_what_json_says(c: char, rest: Seq<char>)
    ensures
        string_body(seq!['\\', 'n'] + rest) == seq!['\n'] + string_body(rest),
        string_body(seq!['\\', 'r'] + rest) == seq!['\r'] + string_body(rest),
        string_body(seq!['\\', 't'] + rest) == seq!['\t'] + string_body(rest),
        string_body(seq!['\\', 'b'] + rest) == seq!['\u{8}'] + string_body(rest),
        string_body(seq!['\\', 'f'] + rest) == seq!['\u{c}'] + string_body(rest),
        string_body(seq!['\\', '/'] + rest) == seq!['/'] + string_body(rest),
        string_body(seq!['\\', '"'] + rest) == seq!['"'] + string_body(rest),
        string_body(seq!['\\', '\\'] + rest) == seq!['\\'] + string_body(rest),
        c != '"' && c != '\\' ==> string_body(seq![c] + rest) == seq![c] + string_body(rest),
        string_body(seq!['"'] + rest).len() == 0,
        string_body(seq![]).len() == 0,
{
    lemma_escape_of('n', rest);
    lemma_escape_of('r', rest);
    lemma_escape_of('t', rest);
    lemma_escape_of('b', rest);
    lemma_escape_of('f', rest);
    lemma_escape_of('/', rest);
    lemma_escape_of('"', rest);
    lemma_escape_of('\\', rest);
    assert((seq![c] + rest).drop_first() =~= rest);
    assert((seq![c] + rest)[0] == c);
    assert((seq!['"'] + rest)[0] == '"');
}

proof fn lemma_escape_of(e: char, rest: Seq<char>)
    requires
        e != 'u',
    ensures
        string_body(seq!['\\', e] + rest) == seq![unescaped(e)] + string_body(rest),
{
    let s = seq!['\\', e] + rest;
    assert(s[0] == '\\' && s[1] == e);
    assert(s.skip(2) =~= rest);
}

/// A numeric escape stands for the character with its number, in either case of its
/// digits, and the text goes on behind its four digits.
pub proof fn law_a_numeric_escape_names_its_character(
    c: char,
    a: char,
    b: char,
    d: char,
    e: char,
    rest: Seq<char>,
)
    requires
        text::digit_value(a) < 16,
        text::digit_value(b) < 16,
        text::digit_value(d) < 16,
        text::digit_value(e) < 16,
        c as int == text::digit_value(a) * 4096 + text::digit_value(b) * 256 + text::digit_value(d)
            * 16 + text::digit_value(e),
    ensures
        string_body(seq!['\\', 'u', a, b, d, e] + rest) == seq![c] + string_body(rest),
{
    let s = seq!['\\', 'u', a, b, d, e] + rest;
    let t = s.skip(2);
    assert(s[0] == '\\' && s[1] == 'u');
    assert(t[0] == a && t[1] == b && t[2] == d && t[3] == e);
    assert(hex_value(a) == Some(text::digit_value(a)));
    assert(hex_value(b) == Some(text::digit_value(b)));
    assert(hex_value(d) == Some(text::digit_value(d)));
    assert(hex_value(e) == Some(text::digit_value(e)));
    assert(hex_number(t) == Some(c as int));
    assert(numeric(t) == Some(c));
    assert(s.skip(6) =~= rest);
}

/// Escaping goes character by character, and only quotes, backslashes and control
/// characters are written otherwise than they are.
pub proof fn law_ordinary_text_is_not_escaped(front: Seq<char>, s: Seq<char>)
    requires
        forall|i: int|
            0 <= i < s.len() ==> #[trigger] s[i] >= '\u{20}' && s[i] != '"' && s[i] != '\\',
    ensures
        escaped(front + s) == escaped(front) + s,
    decreases s.len(),
{
    if s.len() == 0 {
        assert(front + s =~= front);
        assert(escaped(front) + s =~= escaped(front));
    } else {
        let t = s.drop_last();
        assert forall|i: int| 0 <= i < t.len() implies #[trigger] t[i] >= '\u{20}' && t[i] != '"'
            && t[i] != '\\' by {
            assert(t[i] == s[i]);
        }
        law_ordinary_text_is_not_escaped(front, t);
        assert((front + s).drop_last() =~= front + t);
        assert((front + s).last() == s[s.len() - 1]);
        assert(escaped(front + s) =~= escaped(front) + s);
    }
}

/// Any other escape stands for the character it escapes, and a backslash that ends the
/// text for itself; a numeric escape without four digits is no numeric escape.
pub proof fn law_other_escapes_stand_for_themselves(e: char, rest: Seq<char>)
    ensures
        e != 'n' && e != 'r' && e != 't' && e != 'b' && e != 'f' && e != 'u' ==> string_body(
            seq!['\\', e] + rest,
        ) == seq![e] + string_body(rest),
        rest.len() < 4 || (exists|i: int|
            0 <= i < 4 && text::digit_value(#[trigger] rest[i]) >= 16) ==> string_body(
            seq!['\\', 'u'] + rest,
        ) == seq!['u'] + string_body(rest),
        string_body(seq!['\\']) == seq!['\\'],
{
    if e != 'u' {
        lemma_escape_of(e, rest);
    }
    let s = seq!['\\', 'u'] + rest;
    assert(s[0] == '\\' && s[1] == 'u');
    assert(s.skip(2) =~= rest);
    if rest.len() >= 4 && exists|i: int| 0 <= i < 4 && text::digit_value(#[trigger] rest[i]) >= 16 {
        let i = choose|i: int| 0 <= i < 4 && text::digit_value(#[trigger] rest[i]) >= 16;
        assert(hex_value(rest[i]) is None);
    }
    let lone = seq!['\\'];
    assert(lone.drop_first().len() == 0);
    assert(string_body(lone.drop_first()).len() == 0);
    assert(string_body(lone) =~= lone);
}

/// What cannot stand in a JSON string is escaped, each character by its own escape, and
/// what was written before it stays.
pub proof fn law_what_is_escaped(front: Seq<char>)
    ensures
        escaped(front.push('"')) == escaped(front) + seq!['\\', '"'],
        escaped(front.push('\\')) == escaped(front) + seq!['\\', '\\'],
        escaped(front.push('\n')) == escaped(front) + seq!['\\', 'n'],
        escaped(front.push('\r')) == escaped(front) + seq!['\\', 'r'],
        escaped(front.push('\t')) == escaped(front) + seq!['\\', 't'],
        escaped(seq![]).len() == 0,
{
    assert(front.push('"').drop_last() =~= front);
    assert(front.push('\\').drop_last() =~= front);
    assert(front.push('\n').drop_last() =~= front);
    assert(front.push('\r').drop_last() =~= front);
    assert(front.push('\t').drop_last() =~= front);
}

} // verus!
