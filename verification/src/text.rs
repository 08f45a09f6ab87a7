//! Text as sequences of characters: the vocabulary the rest of the library is
//! specified in, and the operations on strings it is built from.

use vstd::prelude::*;

verus! {

/// `String::push` appends the given character to the end of the string.
pub assume_specification[ String::push ](s: &mut String, c: char)
    ensures
        final(s)@ == old(s)@.push(c),
;

// ---------------------------------------------------------------------------
// Strings and their characters
// ---------------------------------------------------------------------------

/// The texts of a list of strings.
pub open spec fn texts(list: Seq<String>) -> Seq<Seq<char>> {
    list.map_values(|s: String| s@)
}

/// The text of an optional string.
pub open spec fn opt_text(s: Option<String>) -> Option<Seq<char>> {
    match s {
        Some(t) => Some(t@),
        None => None,
    }
}

/// The characters of `s`, in order.
pub fn chars_of(s: &str) -> (v: Vec<char>)
    ensures
        v@ == s@,
{
    let mut v: Vec<char> = Vec::new();
    for c in it: s.chars()
        invariant
            it.seq() == s@,
            v@ == s@.take(it.index() as int),
    {
        v.push(c);
    }
    v
}

/// The string made of the characters `v[from..to]`.
pub fn string_of(v: &Vec<char>, from: usize, to: usize) -> (s: String)
    requires
        from <= to <= v@.len(),
    ensures
        s@ == v@.subrange(from as int, to as int),
{
    let mut s = String::new();
    let mut i: usize = from;
    while i < to
        invariant
            from <= i <= to <= v@.len(),
            s@ == v@.subrange(from as int, i as int),
        decreases to - i,
    {
        s.push(v[i]);
        i = i + 1;
    }
    s
}

/// Whether two strings hold the same text.
pub fn same(a: &str, b: &str) -> (r: bool)
    ensures
        r == (a@ == b@),
{
    let x = chars_of(a);
    let y = chars_of(b);
    if x.len() != y.len() {
        return false;
    }
    let mut i: usize = 0;
    while i < x.len()
        invariant
            i <= x@.len(),
            x@.len() == y@.len(),
            x@ == a@,
            y@ == b@,
            forall|j: int| 0 <= j < i ==> x@[j] == y@[j],
        decreases x@.len() - i,
    {
        if x[i] != y[i] {
            return false;
        }
        i = i + 1;
    }
    assert(x@ =~= y@);
    true
}

// ---------------------------------------------------------------------------
// Whitespace
// ---------------------------------------------------------------------------

/// The characters with the Unicode `White_Space` property.
pub open spec fn is_space(c: char) -> bool {
    ||| '\u{9}' <= c <= '\u{d}'
    ||| c == '\u{20}'
    ||| c == '\u{85}'
    ||| c == '\u{a0}'
    ||| c == '\u{1680}'
    ||| '\u{2000}' <= c <= '\u{200a}'
    ||| c == '\u{2028}'
    ||| c == '\u{2029}'
    ||| c == '\u{202f}'
    ||| c == '\u{205f}'
    ||| c == '\u{3000}'
}

/// Whether `c` is whitespace.
pub fn is_whitespace(c: char) -> (r: bool)
    ensures
        r == is_space(c),
{
    ('\u{9}' <= c && c <= '\u{d}') || c == '\u{20}' || c == '\u{85}' || c == '\u{a0}' || c
        == '\u{1680}' || ('\u{2000}' <= c && c <= '\u{200a}') || c == '\u{2028}' || c == '\u{2029}'
        || c == '\u{202f}' || c == '\u{205f}' || c == '\u{3000}'
}

/// `s` without its leading whitespace.
pub open spec fn trimmed_start(s: Seq<char>) -> Seq<char>
    decreases s.len(),
{
    if s.len() > 0 && is_space(s[0]) {
        trimmed_start(s.drop_first())
    } else {
        s
    }
}

/// `s` without its trailing whitespace.
pub open spec fn trimmed_end(s: Seq<char>) -> Seq<char>
    decreases s.len(),
{
    if s.len() > 0 && is_space(s.last()) {
        trimmed_end(s.drop_last())
    } else {
        s
    }
}

/// `s` without the whitespace around it.
pub open spec fn trimmed(s: Seq<char>) -> Seq<char> {
    trimmed_end(trimmed_start(s))
}

/// `s` holds nothing but whitespace.
pub open spec fn blank(s: Seq<char>) -> bool {
    trimmed(s).len() == 0
}

pub proof fn lemma_trimmed_start_at(s: Seq<char>, k: int)
    requires
        0 <= k <= s.len(),
        forall|i: int| 0 <= i < k ==> is_space(#[trigger] s[i]),
        k < s.len() ==> !is_space(s[k]),
    ensures
        trimmed_start(s) == s.skip(k),
    decreases k,
{
    if k == 0 {
        assert(s.skip(0) =~= s);
    } else {
        assert(is_space(s[0]));
        let t = s.drop_first();
        assert forall|i: int| 0 <= i < k - 1 implies is_space(#[trigger] t[i]) by {
            assert(t[i] == s[i + 1]);
        }
        lemma_trimmed_start_at(t, k - 1);
        assert(t.skip(k - 1) =~= s.skip(k));
    }
}

pub proof fn lemma_trimmed_end_at(s: Seq<char>, k: int)
    requires
        0 <= k <= s.len(),
        forall|i: int| k <= i < s.len() ==> is_space(#[trigger] s[i]),
        k > 0 ==> !is_space(s[k - 1]),
    ensures
        trimmed_end(s) == s.take(k),
    decreases s.len() - k,
{
    if k == s.len() {
        assert(s.take(k) =~= s);
    } else {
        let t = s.drop_last();
        assert forall|i: int| k <= i < t.len() implies is_space(#[trigger] t[i]) by {
            assert(t[i] == s[i]);
        }
        lemma_trimmed_end_at(t, k);
        assert(t.take(k) =~= s.take(k));
    }
}

/// Where trimming starts to keep characters.
pub proof fn lemma_trimmed_start_cut(s: Seq<char>) -> (k: int)
    ensures
        0 <= k <= s.len(),
        trimmed_start(s) == s.skip(k),
        forall|i: int| 0 <= i < k ==> is_space(#[trigger] s[i]),
        k < s.len() ==> !is_space(s[k]),
    decreases s.len(),
{
    if s.len() > 0 && is_space(s[0]) {
        let t = s.drop_first();
        let k = lemma_trimmed_start_cut(t);
        assert(t.skip(k) =~= s.skip(k + 1));
        assert forall|i: int| 0 <= i < k + 1 implies is_space(#[trigger] s[i]) by {
            if i > 0 {
                assert(t[i - 1] == s[i]);
            }
        }
        k + 1
    } else {
        assert(s.skip(0) =~= s);
        0
    }
}

/// Where trimming stops keeping characters.
pub proof fn lemma_trimmed_end_cut(s: Seq<char>) -> (k: int)
    ensures
        0 <= k <= s.len(),
        trimmed_end(s) == s.take(k),
        forall|i: int| k <= i < s.len() ==> is_space(#[trigger] s[i]),
        k > 0 ==> !is_space(s[k - 1]),
    decreases s.len(),
{
    if s.len() > 0 && is_space(s.last()) {
        let t = s.drop_last();
        let k = lemma_trimmed_end_cut(t);
        assert(t.take(k) =~= s.take(k));
        assert forall|i: int| k <= i < s.len() implies is_space(#[trigger] s[i]) by {
            if i < t.len() {
                assert(t[i] == s[i]);
            }
        }
        k
    } else {
        assert(s.take(s.len() as int) =~= s);
        s.len() as int
    }
}

/// Trimmed text is a stretch of the original, neither starts nor ends in
/// whitespace, and is left alone by trimming again.
pub proof fn lemma_trimmed(s: Seq<char>)
    ensures
        exists|a: int, b: int|
            0 <= a <= b <= s.len() && trimmed(s) == #[trigger] s.subrange(a, b),
        trimmed(s).len() > 0 ==> !is_space(trimmed(s)[0]) && !is_space(trimmed(s).last()),
        trimmed(trimmed(s)) == trimmed(s),
        trimmed(s).len() <= s.len(),
{
    let a = lemma_trimmed_start_cut(s);
    let t = trimmed_start(s);
    let b = lemma_trimmed_end_cut(t);
    assert(t.take(b) =~= s.subrange(a, a + b));
    let r = trimmed(s);
    if r.len() > 0 {
        assert(r[0] == s[a]);
        assert(r.last() == t[b - 1]);
    }
    lemma_trimmed_start_at(r, 0);
    assert(r.skip(0) =~= r);
    lemma_trimmed_end_at(r, r.len() as int);
    assert(r.take(r.len() as int) =~= r);
}

/// A text is blank exactly when every character of it is whitespace.
pub proof fn lemma_blank(s: Seq<char>)
    ensures
        blank(s) <==> (forall|i: int| 0 <= i < s.len() ==> is_space(#[trigger] s[i])),
{
    let a = lemma_trimmed_start_cut(s);
    let t = trimmed_start(s);
    let b = lemma_trimmed_end_cut(t);
    if a < s.len() {
        assert(t[0] == s[a]);
    }
}

/// `s` without the whitespace around it.
pub fn trim(s: &str) -> (r: String)
    ensures
        r@ == trimmed(s@),
{
    let v = chars_of(s);
    let mut a: usize = 0;
    while a < v.len() && is_whitespace(v[a])
        invariant
            a <= v@.len(),
            v@ == s@,
            forall|i: int| 0 <= i < a ==> is_space(#[trigger] v@[i]),
        decreases v@.len() - a,
    {
        a = a + 1;
    }
    let mut b: usize = v.len();
    while b > a && is_whitespace(v[b - 1])
        invariant
            a <= b <= v@.len(),
            v@ == s@,
            forall|i: int| b <= i < v@.len() ==> is_space(#[trigger] v@[i]),
        decreases b,
    {
        b = b - 1;
    }
    proof {
        lemma_trimmed_start_at(v@, a as int);
        let t = v@.skip(a as int);
        assert forall|i: int| b - a <= i < t.len() implies is_space(#[trigger] t[i]) by {
            assert(t[i] == v@[i + a]);
        }
        if b > a {
            assert(t[b - a - 1] == v@[b - 1]);
        }
        lemma_trimmed_end_at(t, b - a);
        assert(t.take(b - a) =~= v@.subrange(a as int, b as int));
    }
    string_of(&v, a, b)
}

/// `s` without its leading whitespace.
pub fn trim_start(s: &str) -> (r: String)
    ensures
        r@ == trimmed_start(s@),
{
    let v = chars_of(s);
    let mut a: usize = 0;
    while a < v.len() && is_whitespace(v[a])
        invariant
            a <= v@.len(),
            v@ == s@,
            forall|i: int| 0 <= i < a ==> is_space(#[trigger] v@[i]),
        decreases v@.len() - a,
    {
        a = a + 1;
    }
    proof {
        lemma_trimmed_start_at(v@, a as int);
        assert(v@.skip(a as int) =~= v@.subrange(a as int, v@.len() as int));
    }
    string_of(&v, a, v.len())
}

/// Whether `s` holds nothing but whitespace.
pub fn is_blank(s: &str) -> (r: bool)
    ensures
        r == blank(s@),
{
    let v = chars_of(s);
    let mut i: usize = 0;
    proof {
        lemma_blank(s@);
    }
    while i < v.len()
        invariant
            i <= v@.len(),
            v@ == s@,
            forall|j: int| 0 <= j < i ==> is_space(#[trigger] v@[j]),
            blank(s@) <==> (forall|j: int| 0 <= j < s@.len() ==> is_space(#[trigger] s@[j])),
        decreases v@.len() - i,
    {
        if !is_whitespace(v[i]) {
            return false;
        }
        i = i + 1;
    }
    true
}

// ---------------------------------------------------------------------------
// Searching
// ---------------------------------------------------------------------------

/// `pat` stands in `s` at position `i`.
pub open spec fn occurs_at(s: Seq<char>, pat: Seq<char>, i: int) -> bool {
    0 <= i && i + pat.len() <= s.len() && s.subrange(i, i + pat.len()) == pat
}

/// `pat` stands somewhere in `s`.
pub open spec fn holds(s: Seq<char>, pat: Seq<char>) -> bool {
    exists|i: int| occurs_at(s, pat, i)
}

/// `i` is where `pat` first stands in `s`.
pub open spec fn first_at(s: Seq<char>, pat: Seq<char>, i: int) -> bool {
    occurs_at(s, pat, i) && forall|j: int| 0 <= j < i ==> !occurs_at(s, pat, j)
}

/// Where `pat` first stands in `s`, if anywhere.
pub open spec fn position(s: Seq<char>, pat: Seq<char>) -> Option<int> {
    if holds(s, pat) {
        Some(choose|i: int| first_at(s, pat, i))
    } else {
        None
    }
}

/// A first occurrence is the position.
pub proof fn lemma_position_is(s: Seq<char>, pat: Seq<char>, n: int)
    requires
        first_at(s, pat, n),
    ensures
        position(s, pat) == Some(n),
{
    let i = choose|i: int| first_at(s, pat, i);
    assert(first_at(s, pat, i));
    if i < n {
        assert(!occurs_at(s, pat, i));
    } else if n < i {
        assert(!occurs_at(s, pat, n));
    }
}

fn occurs_here(v: &Vec<char>, pat: &Vec<char>, at: usize) -> (r: bool)
    requires
        at <= v@.len(),
    ensures
        r == occurs_at(v@, pat@, at as int),
{
    let n: usize = v.len();
    if n - at < pat.len() {
        return false;
    }
    let mut k: usize = 0;
    while k < pat.len()
        invariant
            k <= pat@.len(),
            n == v@.len(),
            at + pat@.len() <= n,
            forall|j: int| 0 <= j < k ==> #[trigger] v@[at + j] == pat@[j],
        decreases pat@.len() - k,
    {
        if v[at + k] != pat[k] {
            assert(v@.subrange(at as int, at + pat@.len())[k as int] == v@[at + k]);
            return false;
        }
        k = k + 1;
    }
    assert(v@.subrange(at as int, at + pat@.len()) =~= pat@) by {
        assert forall|j: int| 0 <= j < pat@.len() implies v@.subrange(
            at as int,
            at + pat@.len(),
        )[j] == pat@[j] by {
            assert(v@[at + j] == pat@[j]);
        }
    }
    true
}

/// Where `pat` first stands in `v`, if anywhere.
pub fn find_in(v: &Vec<char>, pat: &Vec<char>) -> (r: Option<usize>)
    ensures
        match r {
            Some(i) => position(v@, pat@) == Some(i as int) && occurs_at(v@, pat@, i as int),
            None => position(v@, pat@) is None,
        },
{
    let mut i: usize = 0;
    loop
        invariant
            i <= v@.len(),
            forall|j: int| 0 <= j < i ==> !occurs_at(v@, pat@, j),
        decreases v@.len() - i,
    {
        if occurs_here(v, pat, i) {
            proof {
                lemma_position_is(v@, pat@, i as int);
            }
            return Some(i);
        }
        if i == v.len() {
            assert(!holds(v@, pat@)) by {
                if holds(v@, pat@) {
                    let j = choose|j: int| occurs_at(v@, pat@, j);
                    assert(j <= v@.len());
                }
            }
            return None;
        }
        i = i + 1;
    }
}

/// Whether `pat` stands somewhere in `s`.
pub fn contains(s: &str, pat: &str) -> (r: bool)
    ensures
        r == holds(s@, pat@),
{
    let v = chars_of(s);
    let p = chars_of(pat);
    find_in(&v, &p).is_some()
}

/// Whether `s` starts with `pat`.
pub fn starts_with(s: &str, pat: &str) -> (r: bool)
    ensures
        r == occurs_at(s@, pat@, 0),
{
    let v = chars_of(s);
    let p = chars_of(pat);
    occurs_here(&v, &p, 0)
}

/// `c` is one of the characters of `s`.
pub fn has_char(s: &str, c: char) -> (r: bool)
    ensures
        r == s@.contains(c),
{
    let v = chars_of(s);
    let mut i: usize = 0;
    while i < v.len()
        invariant
            i <= v@.len(),
            v@ == s@,
            forall|j: int| 0 <= j < i ==> v@[j] != c,
        decreases v@.len() - i,
    {
        if v[i] == c {
            assert(s@[i as int] == c);
            return true;
        }
        i = i + 1;
    }
    false
}

// ---------------------------------------------------------------------------
// Splitting and joining
// ---------------------------------------------------------------------------

/// The index of the first `c` in `s`, or the length of `s`.
pub open spec fn index_or_len(s: Seq<char>, c: char) -> int
    decreases s.len(),
{
    if s.len() == 0 || s[0] == c {
        0
    } else {
        1 + index_or_len(s.drop_first(), c)
    }
}

pub proof fn lemma_index_or_len(s: Seq<char>, c: char)
    ensures
        0 <= index_or_len(s, c) <= s.len(),
        forall|i: int| 0 <= i < index_or_len(s, c) ==> #[trigger] s[i] != c,
        index_or_len(s, c) < s.len() ==> s[index_or_len(s, c)] == c,
    decreases s.len(),
{
    if s.len() == 0 || s[0] == c {
    } else {
        let t = s.drop_first();
        lemma_index_or_len(t, c);
        assert forall|i: int| 0 <= i < index_or_len(s, c) implies #[trigger] s[i] != c by {
            if i > 0 {
                assert(t[i - 1] == s[i]);
            }
        }
    }
}

pub proof fn lemma_index_or_len_is(s: Seq<char>, c: char, k: int)
    requires
        0 <= k <= s.len(),
        forall|i: int| 0 <= i < k ==> #[trigger] s[i] != c,
        k < s.len() ==> s[k] == c,
    ensures
        index_or_len(s, c) == k,
{
    lemma_index_or_len(s, c);
    let m = index_or_len(s, c);
    if m < k {
        assert(s[m] != c);
    } else if k < m {
        assert(s[k] != c);
    }
}

/// The stretches of `s` between occurrences of `c`: one more than there are
/// occurrences.
pub open spec fn pieces(s: Seq<char>, c: char) -> Seq<Seq<char>>
    decreases s.len(),
    via pieces_decreases
{
    let n = index_or_len(s, c);
    if n >= s.len() {
        seq![s]
    } else {
        seq![s.take(n)] + pieces(s.skip(n + 1), c)
    }
}

#[via_fn]
proof fn pieces_decreases(s: Seq<char>, c: char) {
    lemma_index_or_len(s, c);
}

/// `s` split at every `c`.
pub fn split(s: &str, c: char) -> (r: Vec<String>)
    ensures
        texts(r@) == pieces(s@, c),
{
    let v = chars_of(s);
    let mut r: Vec<String> = Vec::new();
    let mut start: usize = 0;
    let mut i: usize = 0;
    assert(v@.skip(0) =~= v@);
    while i < v.len()
        invariant
            start <= i <= v@.len(),
            v@ == s@,
            forall|j: int| start <= j < i ==> v@[j] != c,
            texts(r@) + pieces(v@.skip(start as int), c) == pieces(s@, c),
        decreases v@.len() - i,
    {
        if v[i] == c {
            let ghost before = texts(r@);
            let ghost t = v@.skip(start as int);
            let piece = string_of(&v, start, i);
            r.push(piece);
            proof {
                assert forall|j: int| 0 <= j < i - start implies #[trigger] t[j] != c by {
                    assert(t[j] == v@[start + j]);
                }
                assert(t[i - start] == v@[i as int]);
                lemma_index_or_len_is(t, c, i - start);
                assert(t.take(i - start) =~= v@.subrange(start as int, i as int));
                assert(t.skip(i - start + 1) =~= v@.skip(i + 1));
                assert(texts(r@) =~= before.push(piece@));
                assert(before + (seq![piece@] + pieces(v@.skip(i + 1), c)) =~= texts(r@) + pieces(
                    v@.skip(i + 1),
                    c,
                ));
            }
            start = i + 1;
        }
        i = i + 1;
    }
    let ghost before = texts(r@);
    let ghost t = v@.skip(start as int);
    let piece = string_of(&v, start, v.len());
    r.push(piece);
    proof {
        assert forall|j: int| 0 <= j < t.len() implies #[trigger] t[j] != c by {
            assert(t[j] == v@[start + j]);
        }
        lemma_index_or_len_is(t, c, t.len() as int);
        assert(t =~= v@.subrange(start as int, v@.len() as int));
        assert(texts(r@) =~= before.push(piece@));
        assert(texts(r@) =~= before + seq![piece@]);
    }
    r
}

/// A line without the carriage return that ends it.
pub open spec fn without_cr(s: Seq<char>) -> Seq<char> {
    if s.len() > 0 && s.last() == '\r' {
        s.drop_last()
    } else {
        s
    }
}

/// The lines of `s`. A line ends at `\n` or `\r\n`, and the last one may go
/// without an ending.
pub open spec fn line_list(s: Seq<char>) -> Seq<Seq<char>>
    decreases s.len(),
    via line_list_decreases
{
    let n = index_or_len(s, '\n');
    if s.len() == 0 {
        seq![]
    } else if n >= s.len() {
        seq![s]
    } else {
        seq![without_cr(s.take(n))] + line_list(s.skip(n + 1))
    }
}

#[via_fn]
proof fn line_list_decreases(s: Seq<char>) {
    lemma_index_or_len(s, '\n');
}

/// The lines of `s`, without their endings.
pub fn lines(s: &str) -> (r: Vec<String>)
    ensures
        texts(r@) == line_list(s@),
{
    let v = chars_of(s);
    let mut r: Vec<String> = Vec::new();
    let mut start: usize = 0;
    let mut i: usize = 0;
    assert(v@.skip(0) =~= v@);
    while i < v.len()
        invariant
            start <= i <= v@.len(),
            v@ == s@,
            forall|j: int| start <= j < i ==> v@[j] != '\n',
            texts(r@) + line_list(v@.skip(start as int)) == line_list(s@),
        decreases v@.len() - i,
    {
        if v[i] == '\n' {
            let ghost before = texts(r@);
            let ghost t = v@.skip(start as int);
            let mut end: usize = i;
            if end > start && v[end - 1] == '\r' {
                end = end - 1;
            }
            let line = string_of(&v, start, end);
            r.push(line);
            proof {
                assert forall|j: int| 0 <= j < i - start implies #[trigger] t[j] != '\n' by {
                    assert(t[j] == v@[start + j]);
                }
                assert(t[i - start] == v@[i as int]);
                lemma_index_or_len_is(t, '\n', i - start);
                let whole = v@.subrange(start as int, i as int);
                assert(t.take(i - start) =~= whole);
                if end < i {
                    assert(whole.drop_last() =~= v@.subrange(start as int, end as int));
                }
                assert(line@ == without_cr(whole));
                assert(t.skip(i - start + 1) =~= v@.skip(i + 1));
                assert(texts(r@) =~= before.push(line@));
                assert(before + (seq![line@] + line_list(v@.skip(i + 1))) =~= texts(r@)
                    + line_list(v@.skip(i + 1)));
            }
            start = i + 1;
        }
        i = i + 1;
    }
    let ghost before = texts(r@);
    let ghost t = v@.skip(start as int);
    if start < v.len() {
        let line = string_of(&v, start, v.len());
        r.push(line);
        proof {
            assert forall|j: int| 0 <= j < t.len() implies #[trigger] t[j] != '\n' by {
                assert(t[j] == v@[start + j]);
            }
            lemma_index_or_len_is(t, '\n', t.len() as int);
            assert(t =~= v@.subrange(start as int, v@.len() as int));
            assert(texts(r@) =~= before + seq![line@]);
        }
    } else {
        assert(t.len() == 0);
        assert(line_list(t) == Seq::<Seq<char>>::empty());
        assert(texts(r@) =~= before + Seq::<Seq<char>>::empty());
    }
    r
}

/// The first line of `s`, where it has one.
pub open spec fn first_line_or(s: Seq<char>, default: Seq<char>) -> Seq<char> {
    if line_list(s).len() > 0 {
        line_list(s)[0]
    } else {
        default
    }
}

/// The first line of `s`, or `default` where it has none.
pub fn first_line(s: &str, default: &str) -> (r: String)
    ensures
        r@ == first_line_or(s@, default@),
{
    let all = lines(s);
    if all.len() > 0 {
        assert(texts(all@)[0] == all@[0]@);
        all[0].clone()
    } else {
        assert(texts(all@).len() == 0);
        default.to_string()
    }
}

/// The parts, with `sep` between each two.
pub open spec fn joined(parts: Seq<Seq<char>>, sep: Seq<char>) -> Seq<char>
    decreases parts.len(),
{
    if parts.len() == 0 {
        seq![]
    } else if parts.len() == 1 {
        parts[0]
    } else {
        joined(parts.drop_last(), sep) + sep + parts.last()
    }
}

/// The parts, with `sep` between each two.
pub fn join(parts: &Vec<String>, sep: &str) -> (r: String)
    ensures
        r@ == joined(texts(parts@), sep@),
{
    let mut r = String::new();
    let mut i: usize = 0;
    let ghost all = texts(parts@);
    assert(all.take(0) =~= seq![]);
    while i < parts.len()
        invariant
            i <= parts@.len(),
            all == texts(parts@),
            r@ == joined(all.take(i as int), sep@),
        decreases parts@.len() - i,
    {
        if i > 0 {
            r.append(sep);
        }
        r.append(parts[i].as_str());
        proof {
            let next = all.take(i + 1);
            assert(next.drop_last() =~= all.take(i as int));
            assert(next.last() == parts@[i as int]@);
            if i == 0 {
                assert(next[0] == parts@[0]@);
                assert(r@ =~= next[0]);
            }
        }
        i = i + 1;
    }
    assert(all.take(all.len() as int) =~= all);
    r
}

/// Joining two lists of parts joins what each joins to.
pub proof fn lemma_joined_concat(a: Seq<Seq<char>>, b: Seq<Seq<char>>, sep: Seq<char>)
    requires
        a.len() > 0,
        b.len() > 0,
    ensures
        joined(a + b, sep) == joined(a, sep) + sep + joined(b, sep),
    decreases b.len(),
{
    let all = a + b;
    assert(all.last() == b.last());
    if b.len() == 1 {
        assert(all.drop_last() =~= a);
    } else {
        assert(all.drop_last() =~= a + b.drop_last());
        lemma_joined_concat(a, b.drop_last(), sep);
        assert(joined(all, sep) =~= joined(a, sep) + sep + joined(b, sep));
    }
}

/// What a text was split into joins to the text again.
pub proof fn lemma_joined_pieces(s: Seq<char>, c: char)
    ensures
        joined(pieces(s, c), seq![c]) == s,
        pieces(s, c).len() > 0,
        forall|i: int| 0 <= i < pieces(s, c).len() ==> !(#[trigger] pieces(s, c)[i]).contains(c),
    decreases s.len(),
{
    lemma_index_or_len(s, c);
    let n = index_or_len(s, c);
    let all = pieces(s, c);
    if n >= s.len() {
        assert(all =~= seq![s]);
        assert(joined(all, seq![c]) == s);
    } else {
        let rest = s.skip(n + 1);
        lemma_joined_pieces(rest, c);
        lemma_joined_concat(seq![s.take(n)], pieces(rest, c), seq![c]);
        assert(joined(seq![s.take(n)], seq![c]) == s.take(n));
        assert(s.take(n) + seq![c] + rest =~= s);
        assert forall|i: int| 0 <= i < all.len() implies !(#[trigger] all[i]).contains(c) by {
            if i == 0 {
                assert(all[0] =~= s.take(n));
            } else {
                assert(all[i] == pieces(rest, c)[i - 1]);
            }
        }
    }
}

/// Parts free of the separator are what their join is split into.
pub proof fn lemma_pieces_joined(parts: Seq<Seq<char>>, c: char)
    requires
        parts.len() > 0,
        forall|i: int| 0 <= i < parts.len() ==> !(#[trigger] parts[i]).contains(c),
    ensures
        pieces(joined(parts, seq![c]), c) == parts,
    decreases parts.len(),
{
    let first = parts[0];
    assert(!first.contains(c));
    assert forall|i: int| 0 <= i < first.len() implies #[trigger] first[i] != c by {
        assert(first.contains(first[i]));
    }
    if parts.len() == 1 {
        lemma_index_or_len_is(first, c, first.len() as int);
        assert(parts =~= seq![first]);
    } else {
        let rest = parts.drop_first();
        assert forall|i: int| 0 <= i < rest.len() implies !(#[trigger] rest[i]).contains(c) by {
            assert(rest[i] == parts[i + 1]);
        }
        lemma_pieces_joined(rest, c);
        assert(seq![first] + rest =~= parts);
        lemma_joined_concat(seq![first], rest, seq![c]);
        let whole = joined(parts, seq![c]);
        let tail = joined(rest, seq![c]);
        assert(whole == first + seq![c] + tail);
        assert forall|i: int| 0 <= i < first.len() implies #[trigger] whole[i] != c by {
            assert(whole[i] == first[i]);
        }
        assert(whole[first.len() as int] == c);
        lemma_index_or_len_is(whole, c, first.len() as int);
        assert(whole.take(first.len() as int) =~= first);
        assert(whole.skip(first.len() as int + 1) =~= tail);
    }
}

// ---------------------------------------------------------------------------
// Numbers
// ---------------------------------------------------------------------------

/// The character of a decimal digit.
pub open spec fn digit_char(d: int) -> char {
    if d == 0 { '0' } else if d == 1 { '1' } else if d == 2 { '2' } else if d == 3 { '3' }
    else if d == 4 { '4' } else if d == 5 { '5' } else if d == 6 { '6' } else if d == 7 { '7' }
    else if d == 8 { '8' } else { '9' }
}

/// A natural number in decimal, without leading zeros.
pub open spec fn decimal(n: nat) -> Seq<char>
    decreases n,
{
    if n < 10 {
        seq![digit_char(n as int)]
    } else {
        decimal(n / 10).push(digit_char((n % 10) as int))
    }
}

/// Numbers that differ are written differently.
pub proof fn lemma_decimal_injective(a: nat, b: nat)
    requires
        decimal(a) == decimal(b),
    ensures
        a == b,
    decreases a,
{
    if a >= 10 && b >= 10 {
        assert(decimal(a).drop_last() =~= decimal(a / 10));
        assert(decimal(b).drop_last() =~= decimal(b / 10));
        lemma_decimal_injective(a / 10, b / 10);
        assert(decimal(a).last() == digit_char((a % 10) as int));
        assert(decimal(b).last() == digit_char((b % 10) as int));
        assert(a % 10 == b % 10);
        assert(a == 10 * (a / 10) + a % 10);
    } else if a < 10 && b < 10 {
        assert(decimal(a)[0] == digit_char(a as int));
        assert(decimal(b)[0] == digit_char(b as int));
    } else if a >= 10 {
        lemma_decimal_nonempty(a / 10);
        assert(decimal(a).len() > 1);
        assert(decimal(b).len() == 1);
    } else {
        lemma_decimal_nonempty(b / 10);
        assert(decimal(b).len() > 1);
        assert(decimal(a).len() == 1);
    }
}

proof fn lemma_decimal_nonempty(n: nat)
    ensures
        decimal(n).len() > 0,
    decreases n,
{
}

proof fn lemma_decimal_digits(n: nat)
    ensures
        decimal(n).len() > 0,
        forall|i: int| 0 <= i < decimal(n).len() ==> '0' <= #[trigger] decimal(n)[i] <= '9',
    decreases n,
{
    if n >= 10 {
        lemma_decimal_digits(n / 10);
    }
}

/// An integer in decimal, with `-` before a negative one.
pub open spec fn decimal_int(i: int) -> Seq<char> {
    if i < 0 {
        seq!['-'] + decimal((-i) as nat)
    } else {
        decimal(i as nat)
    }
}

/// `c` can stand in a number written by [`decimal_int`].
spec fn in_number(c: char) -> bool {
    c == '-' || '0' <= c <= '9'
}

proof fn lemma_decimal_int_chars(i: int)
    ensures
        decimal_int(i).len() > 0,
        forall|k: int| 0 <= k < decimal_int(i).len() ==> in_number(#[trigger] decimal_int(i)[k]),
        i >= 0 ==> decimal_int(i)[0] != '-',
{
    let n = if i < 0 { (-i) as nat } else { i as nat };
    lemma_decimal_digits(n);
    if i < 0 {
        assert forall|k: int| 0 <= k < decimal_int(i).len() implies in_number(
            #[trigger] decimal_int(i)[k],
        ) by {
            if k > 0 {
                assert(decimal_int(i)[k] == decimal(n)[k - 1]);
            }
        }
    }
}

/// A number with something else behind it can be told apart from what follows.
pub proof fn lemma_number_then(a: int, b: int, x: Seq<char>, y: Seq<char>)
    requires
        decimal_int(a) + x == decimal_int(b) + y,
        x.len() > 0,
        y.len() > 0,
        x[0] == ' ' || x[0] == ':' || x[0] == ',' || x[0] == 'm',
        y[0] == ' ' || y[0] == ':' || y[0] == ',' || y[0] == 'm',
    ensures
        a == b,
        x == y,
{
    let m = decimal_int(a);
    let n = decimal_int(b);
    lemma_decimal_int_chars(a);
    lemma_decimal_int_chars(b);
    assert((m + x)[m.len() as int] == x[0]);
    assert((n + y)[n.len() as int] == y[0]);
    if m.len() < n.len() {
        assert((n + y)[m.len() as int] == n[m.len() as int]);
        assert(in_number(n[m.len() as int]));
    }
    if n.len() < m.len() {
        assert((m + x)[n.len() as int] == m[n.len() as int]);
        assert(in_number(m[n.len() as int]));
    }
    assert(m =~= (m + x).take(m.len() as int));
    assert(n =~= (n + y).take(m.len() as int));
    assert(x =~= (m + x).skip(m.len() as int));
    assert(y =~= (n + y).skip(m.len() as int));
    assert(m[0] == n[0]);
    if a < 0 {
        assert(b < 0);
        assert(decimal((-a) as nat) =~= m.drop_first());
        assert(decimal((-b) as nat) =~= n.drop_first());
        lemma_decimal_injective((-a) as nat, (-b) as nat);
    } else {
        lemma_decimal_injective(a as nat, b as nat);
    }
}

/// `d` as a decimal digit.
pub fn digit(d: u128) -> (c: char)
    requires
        d < 10,
    ensures
        c == digit_char(d as int),
{
    if d == 0 { '0' } else if d == 1 { '1' } else if d == 2 { '2' } else if d == 3 { '3' }
    else if d == 4 { '4' } else if d == 5 { '5' } else if d == 6 { '6' } else if d == 7 { '7' }
    else if d == 8 { '8' } else { '9' }
}

/// `n` in decimal.
pub fn to_decimal(n: u128) -> (s: String)
    ensures
        s@ == decimal(n as nat),
    decreases n,
{
    if n < 10 {
        let mut s = String::new();
        s.push(digit(n));
        assert(s@ =~= seq![digit_char(n as int)]);
        s
    } else {
        let mut s = to_decimal(n / 10);
        s.push(digit(n % 10));
        s
    }
}

/// `i` in decimal.
pub fn to_decimal_int(i: i128) -> (s: String)
    requires
        i > i128::MIN,
    ensures
        s@ == decimal_int(i as int),
{
    if i < 0 {
        let mut s = String::new();
        s.push('-');
        let m: i128 = -i;
        s.append(to_decimal(m as u128).as_str());
        assert(s@ =~= decimal_int(i as int));
        s
    } else {
        to_decimal(i as u128)
    }
}

/// The value of a digit in any base up to 36.
pub open spec fn digit_value(c: char) -> int {
    if '0' <= c <= '9' {
        c as int - '0' as int
    } else if 'a' <= c <= 'z' {
        c as int - 'a' as int + 10
    } else if 'A' <= c <= 'Z' {
        c as int - 'A' as int + 10
    } else {
        36
    }
}

/// The number that `digits` spell in base `radix`, where each is a digit.
pub open spec fn spelled(digits: Seq<char>, radix: int) -> Option<int>
    decreases digits.len(),
{
    if digits.len() == 0 {
        Some(0)
    } else {
        match spelled(digits.drop_last(), radix) {
            Some(n) => if digit_value(digits.last()) < radix {
                Some(n * radix + digit_value(digits.last()))
            } else {
                None
            },
            None => None,
        }
    }
}

/// The integer that an optional sign and digits spell.
pub open spec fn signed(digits: Seq<char>, radix: int) -> Option<int> {
    if digits.len() > 0 && (digits[0] == '+' || digits[0] == '-') {
        if digits.len() == 1 {
            None
        } else {
            match spelled(digits.drop_first(), radix) {
                Some(n) => Some(if digits[0] == '-' { -n } else { n }),
                None => None,
            }
        }
    } else if digits.len() == 0 {
        None
    } else {
        spelled(digits, radix)
    }
}

/// The number that an optional `+` and decimal digits spell.
pub open spec fn unsigned(s: Seq<char>) -> Option<int> {
    if s.len() > 0 && s[0] == '-' {
        None
    } else {
        signed(s, 10)
    }
}

/// The integer, where it is one from zero to `max`.
pub open spec fn bounded(n: Option<int>, max: int) -> Option<int> {
    match n {
        Some(v) => if 0 <= v <= max {
            Some(v)
        } else {
            None
        },
        None => None,
    }
}

fn value_of_digit(c: char) -> (r: u32)
    ensures
        r == digit_value(c),
        r <= 36,
{
    if '0' <= c && c <= '9' {
        c as u32 - '0' as u32
    } else if 'a' <= c && c <= 'z' {
        c as u32 - 'a' as u32 + 10
    } else if 'A' <= c && c <= 'Z' {
        c as u32 - 'A' as u32 + 10
    } else {
        36
    }
}

proof fn lemma_spelled_grows(digits: Seq<char>, k: int, radix: int)
    requires
        0 <= k <= digits.len(),
        radix >= 1,
    ensures
        match spelled(digits, radix) {
            Some(m) => m >= 0 && (spelled(digits.take(k), radix) matches Some(n) && n <= m),
            None => true,
        },
    decreases digits.len(),
{
    if k == digits.len() {
        assert(digits.take(k) =~= digits);
    }
    if digits.len() > 0 {
        let front = digits.drop_last();
        if k < digits.len() {
            lemma_spelled_grows(front, k, radix);
            assert(front.take(k) =~= digits.take(k));
        } else {
            lemma_spelled_grows(front, front.len() as int, radix);
        }
        if let Some(n) = spelled(front, radix) {
            assert(n <= n * radix) by (nonlinear_arith)
                requires
                    n >= 0,
                    radix >= 1,
            ;
            lemma_digit_value(digits.last());
        }
    }
}

proof fn lemma_digit_value(c: char)
    ensures
        0 <= digit_value(c) <= 36,
{
}

/// The number that the digits `v[from..]` spell, where there are any and it is
/// at most `max`.
fn parse_digits(v: &Vec<char>, from: usize, radix: u32, max: u64) -> (r: Option<u64>)
    requires
        from <= v@.len(),
        2 <= radix <= 36,
    ensures
        match r {
            Some(n) => n <= max && from < v@.len() && spelled(v@.skip(from as int), radix as int)
                == Some(n as int),
            None => from == v@.len() || bounded(
                spelled(v@.skip(from as int), radix as int),
                max as int,
            ) is None,
        },
{
    let ghost digits = v@.skip(from as int);
    let n: usize = v.len();
    if from == n {
        return None;
    }
    let mut acc: u64 = 0;
    let mut i: usize = from;
    assert(digits.take(0).len() == 0);
    while i < n
        invariant
            from <= i <= n,
            n == v@.len(),
            2 <= radix <= 36,
            acc <= max,
            digits == v@.skip(from as int),
            spelled(digits.take(i - from), radix as int) == Some(acc as int),
        decreases n - i,
    {
        let d: u32 = value_of_digit(v[i]);
        proof {
            let next = digits.take(i - from + 1);
            assert(next.drop_last() =~= digits.take(i - from));
            assert(next.last() == v@[i as int]);
            lemma_spelled_grows(digits, i - from + 1, radix as int);
        }
        if d >= radix {
            return None;
        }
        assert(acc * radix <= u64::MAX * 36) by (nonlinear_arith)
            requires
                acc <= u64::MAX,
                radix <= 36,
        ;
        let wide: u128 = acc as u128 * radix as u128 + d as u128;
        if wide > max as u128 {
            return None;
        }
        acc = wide as u64;
        i = i + 1;
    }
    assert(digits.take(i - from) =~= digits);
    Some(acc)
}

/// The number that an optional `+` and decimal digits spell, where it is at most
/// `max`.
pub fn parse_unsigned(s: &str, max: u64) -> (r: Option<u64>)
    ensures
        match r {
            Some(n) => bounded(unsigned(s@), max as int) == Some(n as int),
            None => bounded(unsigned(s@), max as int) is None,
        },
{
    let v = chars_of(s);
    if v.len() > 0 && v[0] == '-' {
        return None;
    }
    let from: usize = if v.len() > 0 && v[0] == '+' { 1 } else { 0 };
    assert(v@.skip(0) =~= v@);
    if v.len() > 0 {
        assert(v@.skip(1) =~= v@.drop_first());
    }
    parse_digits(&v, from, 10, max)
}

/// The integer that an optional sign and digits spell, where it is from zero to
/// `max`.
pub fn parse_signed(s: &str, radix: u32, max: u64) -> (r: Option<u64>)
    requires
        2 <= radix <= 36,
    ensures
        match r {
            Some(n) => bounded(signed(s@, radix as int), max as int) == Some(n as int),
            None => bounded(signed(s@, radix as int), max as int) is None,
        },
{
    let v = chars_of(s);
    assert(v@.skip(0) =~= v@);
    if v.len() > 0 {
        assert(v@.skip(1) =~= v@.drop_first());
    }
    if v.len() > 0 && v[0] == '-' {
        proof {
            lemma_spelled_grows(v@.drop_first(), v@.len() - 1, radix as int);
        }
        return parse_digits(&v, 1, radix, 0);
    }
    let from: usize = if v.len() > 0 && v[0] == '+' { 1 } else { 0 };
    parse_digits(&v, from, radix, max)
}

// ---------------------------------------------------------------------------
// Bytes
// ---------------------------------------------------------------------------

/// What `String::from_utf8_lossy` makes of a sequence of bytes.
pub uninterp spec fn utf8_lossy(bytes: Seq<u8>) -> Seq<char>;

/// `String::from_utf8_lossy`: text out of bytes, with what is not UTF-8 replaced.
/// The text is a function of the bytes, and bytes that are UTF-8 are decoded as
/// they stand. Which replacement characters stand for bytes that are not UTF-8
/// is left unsaid.
#[verifier::external_body]
fn from_utf8_lossy(bytes: &[u8]) -> (r: String)
    ensures
        r@ == utf8_lossy(bytes@),
        vstd::utf8::valid_utf8(bytes@) ==> r@ == vstd::utf8::decode_utf8(bytes@),
{
    String::from_utf8_lossy(bytes).into_owned()
}

/// What bytes read as: UTF-8 as it stands, and anything else with replacements.
pub open spec fn as_read(bytes: Seq<u8>) -> Seq<char> {
    if vstd::utf8::valid_utf8(bytes) {
        vstd::utf8::decode_utf8(bytes)
    } else {
        utf8_lossy(bytes)
    }
}

/// What bytes read as. A mangled text is better than none, so what is not UTF-8
/// is replaced rather than rejected.
pub fn read_bytes(bytes: &[u8]) -> (r: String)
    ensures
        r@ == as_read(bytes@),
{
    from_utf8_lossy(bytes)
}

/// A text that arrives as UTF-8 is taken over unaltered.
pub proof fn law_valid_text_is_read_unaltered(s: Seq<char>)
    ensures
        as_read(vstd::utf8::encode_utf8(s)) == s,
{
    vstd::utf8::encode_utf8_valid_utf8(s);
    vstd::utf8::encode_utf8_decode_utf8(s);
}

// ---------------------------------------------------------------------------
// What texts can be relied on for
// ---------------------------------------------------------------------------

/// The whitespace of ASCII is space, tab, newline, vertical tab, form feed and
/// carriage return; beyond ASCII it is what Unicode lists.
pub proof fn law_what_counts_as_whitespace(c: char)
    ensures
        c < '\u{80}' ==> (is_space(c) <==> c == ' ' || c == '\t' || c == '\n' || c == '\u{b}' || c
            == '\u{c}' || c == '\r'),
        c >= '\u{80}' ==> (is_space(c) <==> seq![
            0x85int,
            0xa0,
            0x1680,
            0x2000,
            0x2001,
            0x2002,
            0x2003,
            0x2004,
            0x2005,
            0x2006,
            0x2007,
            0x2008,
            0x2009,
            0x200a,
            0x2028,
            0x2029,
            0x202f,
            0x205f,
            0x3000,
        ].contains(c as int)),
{
    let list = seq![
        0x85int,
        0xa0,
        0x1680,
        0x2000,
        0x2001,
        0x2002,
        0x2003,
        0x2004,
        0x2005,
        0x2006,
        0x2007,
        0x2008,
        0x2009,
        0x200a,
        0x2028,
        0x2029,
        0x202f,
        0x205f,
        0x3000,
    ];
    if c >= '\u{80}' && is_space(c) {
        let n = c as int;
        let at: int = if n == 0x85 {
            0
        } else if n == 0xa0 {
            1
        } else if n == 0x1680 {
            2
        } else if 0x2000 <= n <= 0x200a {
            3 + (n - 0x2000)
        } else if n == 0x2028 {
            14
        } else if n == 0x2029 {
            15
        } else if n == 0x202f {
            16
        } else if n == 0x205f {
            17
        } else {
            18
        };
        assert(list[at] == n);
    }
}

/// Trimming takes away the whitespace around a text, all of it, and nothing else.
pub proof fn law_trimming_leaves_what_stands_between(
    before: Seq<char>,
    core: Seq<char>,
    behind: Seq<char>,
)
    requires
        forall|i: int| 0 <= i < before.len() ==> is_space(#[trigger] before[i]),
        forall|i: int| 0 <= i < behind.len() ==> is_space(#[trigger] behind[i]),
        core.len() > 0 ==> !is_space(core[0]) && !is_space(core.last()),
    ensures
        trimmed(before + core + behind) == core,
        blank(before + core + behind) <==> core.len() == 0,
{
    let s = before + core + behind;
    if core.len() == 0 {
        assert forall|i: int| 0 <= i < s.len() implies is_space(#[trigger] s[i]) by {
            if i < before.len() {
                assert(s[i] == before[i]);
            } else {
                assert(s[i] == behind[i - before.len()]);
            }
        }
        lemma_blank(s);
        assert(trimmed(s) =~= core);
    } else {
        let k = before.len() as int;
        assert(s[k] == core[0]);
        assert forall|i: int| 0 <= i < k implies is_space(#[trigger] s[i]) by {
            assert(s[i] == before[i]);
        }
        lemma_trimmed_start_at(s, k);
        let tail = s.skip(k);
        assert(tail =~= core + behind);
        assert(tail[core.len() - 1] == core.last());
        assert forall|i: int| core.len() <= i < tail.len() implies is_space(#[trigger] tail[i]) by {
            assert(tail[i] == behind[i - core.len()]);
        }
        lemma_trimmed_end_at(tail, core.len() as int);
        assert(tail.take(core.len() as int) =~= core);
    }
}

/// Lines put one behind the other, each with the ending `eol`.
pub open spec fn ended(lines: Seq<Seq<char>>, eol: Seq<char>) -> Seq<char>
    decreases lines.len(),
{
    if lines.len() == 0 {
        seq![]
    } else {
        lines[0] + eol + ended(lines.drop_first(), eol)
    }
}

/// A line ahead of a text is the first of its lines.
pub proof fn lemma_line_ahead(line: Seq<char>, rest: Seq<char>)
    requires
        !line.contains('\n'),
    ensures
        line_list(line + seq!['\n'] + rest) == seq![without_cr(line)] + line_list(rest),
{
    let s = line + seq!['\n'] + rest;
    let n = line.len() as int;
    assert forall|i: int| 0 <= i < n implies #[trigger] s[i] != '\n' by {
        assert(s[i] == line[i]);
        assert(line.contains(line[i]));
    }
    assert(s[n] == '\n');
    lemma_index_or_len_is(s, '\n', n);
    assert(s.take(n) =~= line);
    assert(s.skip(n + 1) =~= rest);
}

/// A text falls into the lines it was put together from, whether they end in
/// newlines alone or in carriage returns and newlines, and whether or not the
/// last one is ended.
pub proof fn law_lines_come_apart_as_they_went_together(
    lines: Seq<Seq<char>>,
    last: Seq<char>,
    crlf: bool,
)
    requires
        forall|i: int|
            0 <= i < lines.len() ==> !(#[trigger] lines[i]).contains('\n') && (lines[i].len() > 0
                ==> lines[i].last() != '\r'),
        !last.contains('\n'),
    ensures
        ({
            let eol = if crlf {
                seq!['\r', '\n']
            } else {
                seq!['\n']
            };
            line_list(ended(lines, eol) + last) == if last.len() == 0 {
                lines
            } else {
                lines.push(last)
            }
        }),
    decreases lines.len(),
{
    let eol = if crlf {
        seq!['\r', '\n']
    } else {
        seq!['\n']
    };
    if lines.len() == 0 {
        assert(ended(lines, eol) + last =~= last);
        assert forall|i: int| 0 <= i < last.len() implies #[trigger] last[i] != '\n' by {
            assert(last.contains(last[i]));
        }
        lemma_index_or_len_is(last, '\n', last.len() as int);
        if last.len() == 0 {
            assert(line_list(last) =~= lines);
        } else {
            assert(line_list(last) =~= lines.push(last));
        }
    } else {
        let first = lines[0];
        let rest = lines.drop_first();
        assert forall|i: int| 0 <= i < rest.len() implies !(#[trigger] rest[i]).contains('\n') && (
        rest[i].len() > 0 ==> rest[i].last() != '\r') by {
            assert(rest[i] == lines[i + 1]);
        }
        law_lines_come_apart_as_they_went_together(rest, last, crlf);
        let after = ended(rest, eol) + last;
        let whole = ended(lines, eol) + last;
        assert(!first.contains('\n'));
        let line = if crlf {
            first.push('\r')
        } else {
            first
        };
        assert(!line.contains('\n')) by {
            if line.contains('\n') {
                let i = choose|i: int| 0 <= i < line.len() && line[i] == '\n';
                assert(i < first.len());
                assert(first[i] == '\n');
            }
        }
        assert(whole =~= line + seq!['\n'] + after);
        lemma_line_ahead(line, after);
        assert(line.drop_last() =~= if crlf { first } else { line.drop_last() });
        assert(without_cr(line) == first);
        assert(seq![first] + rest =~= lines);
        assert(seq![first] + rest.push(last) =~= lines.push(last));
    }
}

/// The first line of a text is what stands before its first line ending, and a
/// text without any is a line of its own.
pub proof fn law_the_first_line(line: Seq<char>, rest: Seq<char>, default: Seq<char>)
    requires
        !line.contains('\n'),
    ensures
        line.len() > 0 ==> first_line_or(line, default) == line,
        line.len() == 0 ==> first_line_or(line, default) == default,
        line.len() > 0 && line.last() == '\r' ==> first_line_or(line + seq!['\n'] + rest, default)
            == line.drop_last(),
        !(line.len() > 0 && line.last() == '\r') ==> first_line_or(
            line + seq!['\n'] + rest,
            default,
        ) == line,
{
    lemma_line_ahead(line, rest);
    assert forall|i: int| 0 <= i < line.len() implies #[trigger] line[i] != '\n' by {
        assert(line.contains(line[i]));
    }
    lemma_index_or_len_is(line, '\n', line.len() as int);
}

/// A number that is written in decimal reads back, with or without a sign before
/// it, and zeros do not lead it.
pub proof fn law_a_number_reads_back(n: nat)
    ensures
        spelled(decimal(n), 10) == Some(n as int),
        unsigned(decimal(n)) == Some(n as int),
        unsigned(seq!['+'] + decimal(n)) == Some(n as int),
        unsigned(seq!['-'] + decimal(n)) is None,
        signed(decimal_int(n as int), 10) == Some(n as int),
        signed(decimal_int(-(n as int)), 10) == Some(-(n as int)),
        forall|max: int|
            #[trigger] bounded(unsigned(decimal(n)), max) == if n <= max {
                Some(n as int)
            } else {
                None
            },
        n > 0 ==> decimal(n)[0] != '0',
    decreases n,
{
    lemma_decimal_digits(n);
    let d = decimal(n);
    assert('0' <= d[0] <= '9');
    if n >= 10 {
        law_a_number_reads_back(n / 10);
        assert(d.drop_last() =~= decimal(n / 10));
        assert(d.last() == digit_char((n % 10) as int));
        assert(n == (n / 10) * 10 + n % 10);
        lemma_decimal_digits(n / 10);
        assert(d[0] == decimal(n / 10)[0]);
    } else {
        assert(d.drop_last().len() == 0);
        assert(spelled(d.drop_last(), 10) == Some(0int));
        assert(d.last() == digit_char(n as int));
    }
    let plus = seq!['+'] + d;
    let minus = seq!['-'] + d;
    assert(plus.drop_first() =~= d);
    assert(minus.drop_first() =~= d);
    assert(plus[0] == '+');
    assert(minus[0] == '-');
}

/// Digits spell a number in their base, and nothing else does: a letter past the
/// base, a sign in the middle or a space is no digit.
pub proof fn law_only_digits_spell_a_number(s: Seq<char>, radix: int)
    requires
        2 <= radix <= 36,
    ensures
        spelled(s, radix) is Some <==> forall|i: int|
            0 <= i < s.len() ==> digit_value(#[trigger] s[i]) < radix,
        spelled(s, radix) matches Some(n) ==> n >= 0,
    decreases s.len(),
{
    if s.len() > 0 {
        let front = s.drop_last();
        law_only_digits_spell_a_number(front, radix);
        assert(s.last() == s[s.len() - 1]);
        if spelled(s, radix) is Some {
            assert forall|i: int| 0 <= i < s.len() implies digit_value(#[trigger] s[i]) < radix by {
                if i < front.len() {
                    assert(s[i] == front[i]);
                }
            }
            let m = spelled(front, radix)->0;
            assert(m * radix >= 0) by (nonlinear_arith)
                requires
                    m >= 0,
                    radix >= 2,
            ;
        }
        if forall|i: int| 0 <= i < s.len() ==> digit_value(#[trigger] s[i]) < radix {
            assert forall|i: int| 0 <= i < front.len() implies digit_value(#[trigger] front[i])
                < radix by {
                assert(front[i] == s[i]);
            }
        }
    }
}

/// The decimal digits are worth what they say, letters count on from ten in either
/// case, and no other character is a digit; and a digit behind a number multiplies
/// it by the base and adds what it is worth.
pub proof fn law_what_a_digit_is_worth(s: Seq<char>, c: char, d: int, radix: int)
    requires
        0 <= d < radix <= 36,
        spelled(s, radix) is Some,
        d < 10 ==> c as int == 48 + d,
        d >= 10 ==> c as int == 97 + (d - 10) || c as int == 65 + (d - 10),
    ensures
        spelled(s.push(c), radix) == Some(spelled(s, radix)->0 * radix + d),
        forall|x: char|
            !('0' <= x <= '9' || 'a' <= x <= 'z' || 'A' <= x <= 'Z') ==> #[trigger] spelled(
                s.push(x),
                radix,
            ) is None,
{
    assert(s.push(c).drop_last() =~= s);
    assert forall|x: char|
        !('0' <= x <= '9' || 'a' <= x <= 'z' || 'A' <= x <= 'Z') implies #[trigger] spelled(
        s.push(x),
        radix,
    ) is None by {
        assert(s.push(x).drop_last() =~= s);
        assert(s.push(x).last() == x);
    }
}

} // verus!
