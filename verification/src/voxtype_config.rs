//! The handful of voxtype settings this workflow depends on: which they are,
//! how a value of one is written, and how it gets into a file that is mostly
//! comments without disturbing them.

use vstd::prelude::*;

use crate::edit;
use crate::json;
use crate::place::{Base, Place};
use crate::place;
use crate::text;
use crate::toml_doc::Item;
use crate::toml_doc;

verus! {

/// What shape a setting's value takes in the file.
#[derive(Clone, Copy, PartialEq, Eq, Debug, Structural)]
pub enum Kind {
    /// A TOML string.
    Str,
    /// A TOML string or an array of strings.
    StrOrList,
}

/// One setting that is surfaced.
#[derive(Clone, Copy, Debug)]
pub struct Field {
    pub id: &'static str,
    pub table: &'static str,
    pub key: &'static str,
    pub kind: Kind,
    pub help: &'static str,
}

/// The model of a [`Field`].
pub struct FieldView {
    pub id: Seq<char>,
    pub table: Seq<char>,
    pub key: Seq<char>,
    pub kind: Kind,
    pub help: Seq<char>,
}

impl View for Field {
    type V = FieldView;

    open spec fn view(&self) -> FieldView {
        FieldView {
            id: self.id@,
            table: self.table@,
            key: self.key@,
            kind: self.kind,
            help: self.help@,
        }
    }
}

/// The settings that are surfaced: the ones that decide what the popup receives.
pub open spec fn surfaced() -> Seq<FieldView> {
    seq![
        FieldView {
            id: "language"@,
            table: "whisper"@,
            key: "language"@,
            kind: Kind::StrOrList,
            help: "One language (en) or several (en, nl). Pinning to one stops whisper drifting; listing several lets it choose between them."@,
        },
        FieldView {
            id: "model"@,
            table: "whisper"@,
            key: "model"@,
            kind: Kind::Str,
            help: "Whisper model name, e.g. large-v3-turbo."@,
        },
        FieldView {
            id: "initial_prompt"@,
            table: "whisper"@,
            key: "initial_prompt"@,
            kind: Kind::Str,
            help: "Primes whisper with vocabulary and register. Written in one language, it biases transcription toward that language."@,
        },
        FieldView {
            id: "output_mode"@,
            table: "output"@,
            key: "mode"@,
            kind: Kind::Str,
            help: "How text reaches the field. \"paste\" goes via the clipboard; \"type\" injects keycodes and scrambles on non-US layouts."@,
        },
        FieldView {
            id: "hotkey_key"@,
            table: "hotkey"@,
            key: "key"@,
            kind: Kind::Str,
            help: "Push-to-talk key, e.g. RIGHTCTRL."@,
        },
    ]
}

/// The models of a list of settings.
pub open spec fn field_views(list: Seq<Field>) -> Seq<FieldView> {
    list.map_values(|f: Field| f@)
}

/// The settings that are surfaced, in the order they are shown.
pub fn fields() -> (r: Vec<Field>)
    ensures
        field_views(r@) == surfaced(),
{
    let r: Vec<Field> = vec![
        Field {
            id: "language",
            table: "whisper",
            key: "language",
            kind: Kind::StrOrList,
            help: "One language (en) or several (en, nl). Pinning to one stops whisper drifting; listing several lets it choose between them.",
        },
        Field {
            id: "model",
            table: "whisper",
            key: "model",
            kind: Kind::Str,
            help: "Whisper model name, e.g. large-v3-turbo.",
        },
        Field {
            id: "initial_prompt",
            table: "whisper",
            key: "initial_prompt",
            kind: Kind::Str,
            help: "Primes whisper with vocabulary and register. Written in one language, it biases transcription toward that language.",
        },
        Field {
            id: "output_mode",
            table: "output",
            key: "mode",
            kind: Kind::Str,
            help: "How text reaches the field. \"paste\" goes via the clipboard; \"type\" injects keycodes and scrambles on non-US layouts.",
        },
        Field {
            id: "hotkey_key",
            table: "hotkey",
            key: "key",
            kind: Kind::Str,
            help: "Push-to-talk key, e.g. RIGHTCTRL.",
        },
    ];
    assert(field_views(r@) =~= surfaced());
    r
}

/// The first of the settings with this id.
pub open spec fn first_named(list: Seq<FieldView>, id: Seq<char>) -> Option<FieldView>
    decreases list.len(),
{
    if list.len() == 0 {
        None
    } else if list[0].id == id {
        Some(list[0])
    } else {
        first_named(list.drop_first(), id)
    }
}

/// The setting with this id.
pub fn field(id: &str) -> (r: Option<Field>)
    ensures
        match r {
            Some(f) => first_named(surfaced(), id@) == Some(f@),
            None => first_named(surfaced(), id@) is None,
        },
{
    let all = fields();
    let ghost views = surfaced();
    let mut i: usize = 0;
    assert(views.skip(0) =~= views);
    while i < all.len()
        invariant
            i <= all@.len(),
            views == surfaced(),
            views == field_views(all@),
            first_named(views, id@) == first_named(views.skip(i as int), id@),
        decreases all@.len() - i,
    {
        let ghost here = views.skip(i as int);
        assert(here[0] == all@[i as int]@);
        assert(here.drop_first() =~= views.skip(i + 1));
        if text::same(all[i].id, id) {
            return Some(all[i]);
        }
        i = i + 1;
    }
    assert(views.skip(i as int).len() == 0);
    None
}

/// The ids of the settings are distinct, so an id names one setting.
pub proof fn law_setting_ids_are_distinct(i: int, j: int)
    requires
        0 <= i < j < surfaced().len(),
    ensures
        surfaced()[i].id != surfaced()[j].id,
{
    reveal_strlit("language");
    reveal_strlit("model");
    reveal_strlit("initial_prompt");
    reveal_strlit("output_mode");
    reveal_strlit("hotkey_key");
    assert("language"@.len() == 8);
    assert("model"@.len() == 5);
    assert("initial_prompt"@.len() == 14);
    assert("output_mode"@.len() == 11);
    assert("hotkey_key"@.len() == 10);
}

// ---------------------------------------------------------------------------
// Writing a value
// ---------------------------------------------------------------------------

/// One character as it stands inside a TOML basic string.
pub open spec fn toml_char(c: char) -> Seq<char> {
    if c == '"' {
        seq!['\\', '"']
    } else if c == '\\' {
        seq!['\\', '\\']
    } else if c == '\t' {
        seq!['\\', 't']
    } else if c <= '\u{1f}' || c == '\u{7f}' {
        json::unicode_escape(c)
    } else {
        seq![c]
    }
}

/// `s` as it stands inside a TOML basic string.
pub open spec fn toml_body(s: Seq<char>) -> Seq<char>
    decreases s.len(),
{
    if s.len() == 0 {
        seq![]
    } else {
        toml_body(s.drop_last()) + toml_char(s.last())
    }
}

/// `s` as a TOML basic string.
pub open spec fn quoted(s: Seq<char>) -> Seq<char> {
    seq!['"'] + toml_body(s) + seq!['"']
}

/// `s` as a TOML basic string.
pub fn quote(s: &str) -> (r: String)
    ensures
        r@ == quoted(s@),
{
    let v = text::chars_of(s);
    let mut out = String::new();
    out.push('"');
    let mut i: usize = 0;
    assert(v@.take(0).len() == 0);
    assert(out@ =~= seq!['"'] + toml_body(v@.take(0)));
    while i < v.len()
        invariant
            i <= v@.len(),
            v@ == s@,
            out@ == seq!['"'] + toml_body(v@.take(i as int)),
        decreases v@.len() - i,
    {
        let c: char = v[i];
        let ghost before = out@;
        if c == '"' {
            out.push('\\');
            out.push('"');
        } else if c == '\\' {
            out.push('\\');
            out.push('\\');
        } else if c == '\t' {
            out.push('\\');
            out.push('t');
        } else if c <= '\u{1f}' || c == '\u{7f}' {
            json::push_unicode_escape(&mut out, c);
        } else {
            out.push(c);
        }
        proof {
            assert(out@ =~= before + toml_char(c));
            let next = v@.take(i + 1);
            assert(next.drop_last() =~= v@.take(i as int));
            assert(next.last() == c);
            assert(before + toml_char(c) =~= seq!['"'] + toml_body(next));
        }
        i = i + 1;
    }
    assert(v@.take(v@.len() as int) =~= v@);
    out.push('"');
    assert(out@ =~= quoted(s@));
    out
}

/// The characters of a language tag: `en`, `zh-TW`, `auto`.
pub open spec fn is_tag_char(c: char) -> bool {
    'a' <= c <= 'z' || 'A' <= c <= 'Z' || '0' <= c <= '9' || c == '-' || c == '_'
}

/// `s` reads as a language tag.
pub open spec fn is_tag(s: Seq<char>) -> bool {
    forall|i: int| 0 <= i < s.len() ==> is_tag_char(#[trigger] s[i])
}

/// The parts that hold more than whitespace, trimmed.
pub open spec fn nonblank_parts(parts: Seq<Seq<char>>) -> Seq<Seq<char>>
    decreases parts.len(),
{
    if parts.len() == 0 {
        seq![]
    } else if text::blank(parts.last()) {
        nonblank_parts(parts.drop_last())
    } else {
        nonblank_parts(parts.drop_last()).push(text::trimmed(parts.last()))
    }
}

/// The languages listed in `value`.
pub open spec fn languages(value: Seq<char>) -> Seq<Seq<char>> {
    nonblank_parts(text::pieces(value, ','))
}

/// The first part that is not a language tag.
pub open spec fn first_non_tag(parts: Seq<Seq<char>>) -> Option<Seq<char>>
    decreases parts.len(),
{
    if parts.len() == 0 {
        None
    } else if !is_tag(parts[0]) {
        Some(parts[0])
    } else {
        first_non_tag(parts.drop_first())
    }
}

/// The TOML literal for a value of a setting, or why the value is refused.
pub open spec fn rendered(f: FieldView, value: Seq<char>) -> Result<Seq<char>, Seq<char>> {
    let v = text::trimmed(value);
    if v.contains('\n') || v.contains('\r') {
        Err("value must be a single line"@)
    } else {
        match f.kind {
            Kind::Str => if v.len() == 0 {
                Err(f.key + " cannot be empty"@)
            } else {
                Ok(quoted(v))
            },
            Kind::StrOrList => {
                let parts = languages(v);
                if parts.len() == 0 {
                    Err(f.key + " needs at least one language"@)
                } else if let Some(p) = first_non_tag(parts) {
                    Err("\""@ + p + "\" is not a language tag"@)
                } else if parts.len() == 1 {
                    Ok(quoted(parts[0]))
                } else {
                    Ok("["@ + text::joined(parts.map_values(|p: Seq<char>| quoted(p)), ", "@) + "]"@)
                }
            },
        }
    }
}

/// The text of a result.
pub open spec fn result_text(r: Result<String, String>) -> Result<Seq<char>, Seq<char>> {
    match r {
        Ok(t) => Ok(t@),
        Err(e) => Err(e@),
    }
}

fn tag(s: &str) -> (r: bool)
    ensures
        r == is_tag(s@),
{
    let v = text::chars_of(s);
    let mut i: usize = 0;
    while i < v.len()
        invariant
            i <= v@.len(),
            v@ == s@,
            forall|j: int| 0 <= j < i ==> is_tag_char(#[trigger] v@[j]),
        decreases v@.len() - i,
    {
        let c: char = v[i];
        if ('a' <= c && c <= 'z') || ('A' <= c && c <= 'Z') || ('0' <= c && c <= '9') || c == '-'
            || c == '_' {
        } else {
            assert(!is_tag_char(s@[i as int]));
            return false;
        }
        i = i + 1;
    }
    true
}

fn list_languages(value: &str) -> (r: Vec<String>)
    ensures
        text::texts(r@) == languages(value@),
{
    let parts = text::split(value, ',');
    let ghost all = text::texts(parts@);
    let mut r: Vec<String> = Vec::new();
    let mut i: usize = 0;
    assert(all.take(0).len() == 0);
    assert(text::texts(r@) =~= nonblank_parts(all.take(0)));
    while i < parts.len()
        invariant
            i <= parts@.len(),
            all == text::texts(parts@),
            text::texts(r@) == nonblank_parts(all.take(i as int)),
        decreases parts@.len() - i,
    {
        let p = text::trim(parts[i].as_str());
        let ghost before = text::texts(r@);
        proof {
            let next = all.take(i + 1);
            assert(next.drop_last() =~= all.take(i as int));
            assert(next.last() == parts@[i as int]@);
        }
        if !p.as_str().is_empty() {
            r.push(p);
            assert(text::texts(r@) =~= before.push(p@));
        }
        i = i + 1;
    }
    assert(all.take(all.len() as int) =~= all);
    r
}

/// Render a value the operator typed as a TOML literal for this setting.
///
/// A value that cannot be represented is refused rather than guessed at.
pub fn literal(f: &Field, value: &str) -> (r: Result<String, String>)
    ensures
        result_text(r) == rendered(f@, value@),
{
    let v = text::trim(value);
    if text::has_char(v.as_str(), '\n') || text::has_char(v.as_str(), '\r') {
        return Err("value must be a single line".to_string());
    }
    match f.kind {
        Kind::Str => {
            if v.as_str().is_empty() {
                let mut e = f.key.to_string();
                e.append(" cannot be empty");
                return Err(e);
            }
            Ok(quote(v.as_str()))
        },
        Kind::StrOrList => {
            let parts = list_languages(v.as_str());
            let ghost all = text::texts(parts@);
            if parts.len() == 0 {
                let mut e = f.key.to_string();
                e.append(" needs at least one language");
                return Err(e);
            }
            let mut items: Vec<String> = Vec::new();
            let mut i: usize = 0;
            let ghost done = all.map_values(|p: Seq<char>| quoted(p));
            assert(all.skip(0) =~= all);
            while i < parts.len()
                invariant
                    i <= parts@.len(),
                    all == text::texts(parts@),
                    all == languages(text::trimmed(value@)),
                    first_non_tag(all) == first_non_tag(all.skip(i as int)),
                    done == all.map_values(|p: Seq<char>| quoted(p)),
                    text::texts(items@) == done.take(i as int),
                    items@.len() == i,
                    parts@.len() > 0,
                    f.kind == Kind::StrOrList,
                    !text::trimmed(value@).contains('\n'),
                    !text::trimmed(value@).contains('\r'),
                decreases parts@.len() - i,
            {
                let ghost here = all.skip(i as int);
                assert(here[0] == parts@[i as int]@);
                assert(here.drop_first() =~= all.skip(i + 1));
                if !tag(parts[i].as_str()) {
                    let mut e = "\"".to_string();
                    e.append(parts[i].as_str());
                    e.append("\" is not a language tag");
                    return Err(e);
                }
                let ghost before = text::texts(items@);
                items.push(quote(parts[i].as_str()));
                assert(text::texts(items@) =~= before.push(quoted(parts@[i as int]@)));
                assert(done.take(i + 1) =~= done.take(i as int).push(done[i as int]));
                i = i + 1;
            }
            assert(all.skip(i as int).len() == 0);
            assert(done.take(i as int) =~= done);
            if parts.len() == 1 {
                assert(text::texts(items@)[0] == items@[0]@);
                Ok(items[0].clone())
            } else {
                let mut out = "[".to_string();
                out.append(text::join(&items, ", ").as_str());
                out.append("]");
                Ok(out)
            }
        },
    }
}

// ---------------------------------------------------------------------------
// What a literal can be relied on for
// ---------------------------------------------------------------------------

/// `c` may stand in a TOML basic string as it is, if it is neither a quote nor a
/// backslash.
pub open spec fn may_stand(c: char) -> bool {
    c == '\t' || ('\u{1f}' < c && c != '\u{7f}')
}

/// The text of a TOML basic string, read from behind its opening quote, as far
/// as the escapes `\"`, `\\`, `\t` and `\uXXXX` go. `None` where it is not
/// closed, goes on behind its closing quote, or holds a bare control character.
pub open spec fn basic_string(s: Seq<char>) -> Option<Seq<char>>
    decreases s.len(),
{
    if s.len() == 0 {
        None
    } else if s[0] == '"' {
        if s.len() == 1 {
            Some(seq![])
        } else {
            None
        }
    } else if s[0] != '\\' {
        if may_stand(s[0]) {
            prefixed(s[0], basic_string(s.drop_first()))
        } else {
            None
        }
    } else if s.len() >= 2 && (s[1] == '"' || s[1] == '\\') {
        prefixed(s[1], basic_string(s.skip(2)))
    } else if s.len() >= 2 && s[1] == 't' {
        prefixed('\t', basic_string(s.skip(2)))
    } else if s.len() >= 6 && s[1] == 'u' {
        match json::numeric(s.skip(2)) {
            Some(c) => prefixed(c, basic_string(s.skip(6))),
            None => None,
        }
    } else {
        None
    }
}

/// `rest` with `c` before it.
pub open spec fn prefixed(c: char, rest: Option<Seq<char>>) -> Option<Seq<char>> {
    match rest {
        Some(t) => Some(seq![c] + t),
        None => None,
    }
}

proof fn lemma_toml_body_front(s: Seq<char>)
    requires
        s.len() > 0,
    ensures
        toml_body(s) == toml_char(s[0]) + toml_body(s.drop_first()),
    decreases s.len(),
{
    if s.len() == 1 {
        assert(s.drop_last().len() == 0);
        assert(s.drop_first().len() == 0);
        assert(toml_body(s.drop_last()) == Seq::<char>::empty());
        assert(toml_body(s.drop_first()) == Seq::<char>::empty());
        assert(toml_body(s) =~= toml_char(s[0]));
        assert(toml_char(s[0]) + toml_body(s.drop_first()) =~= toml_char(s[0]));
    } else {
        let t = s.drop_last();
        lemma_toml_body_front(t);
        assert(t.drop_first() =~= s.drop_first().drop_last());
        assert(t[0] == s[0]);
        assert(s.drop_first().last() == s.last());
        assert(toml_body(s) =~= toml_char(s[0]) + (toml_body(t.drop_first()) + toml_char(s.last())));
    }
}

proof fn lemma_basic_string(s: Seq<char>)
    ensures
        basic_string(toml_body(s) + seq!['"']) == Some(s),
    decreases s.len(),
{
    let whole = toml_body(s) + seq!['"'];
    if s.len() == 0 {
        assert(whole =~= seq!['"']);
        assert(s =~= seq![]);
    } else {
        let c = s[0];
        let rest = s.drop_first();
        let after = toml_body(rest) + seq!['"'];
        lemma_toml_body_front(s);
        lemma_basic_string(rest);
        assert(whole =~= toml_char(c) + after);
        assert(seq![c] + rest =~= s);
        if c == '"' || c == '\\' || c == '\t' {
            assert(whole[0] == '\\');
            assert(whole[1] == toml_char(c)[1]);
            assert(whole.skip(2) =~= after);
        } else if c <= '\u{1f}' || c == '\u{7f}' {
            assert(whole[0] == '\\' && whole[1] == 'u');
            assert(whole.skip(6) =~= after);
            json::lemma_unicode_escape(c, after);
        } else {
            assert(whole[0] == c);
            assert(whole.drop_first() =~= after);
        }
    }
}

/// Quoting is undone by reading: quotes, backslashes and control characters in
/// a value survive being written as a TOML string.
pub proof fn law_a_quoted_value_reads_back(s: Seq<char>)
    ensures
        quoted(s)[0] == '"',
        basic_string(quoted(s).drop_first()) == Some(s),
{
    lemma_basic_string(s);
    assert(quoted(s).drop_first() =~= toml_body(s) + seq!['"']);
}

/// No character below U+0020 stands in `s`.
pub open spec fn control_free(s: Seq<char>) -> bool {
    forall|i: int| 0 <= i < s.len() ==> #[trigger] s[i] > '\u{1f}'
}

proof fn lemma_quoted_control_free(s: Seq<char>)
    ensures
        control_free(toml_body(s)),
        control_free(quoted(s)),
    decreases s.len(),
{
    if s.len() > 0 {
        let front = toml_body(s.drop_last());
        let back = toml_char(s.last());
        lemma_quoted_control_free(s.drop_last());
        assert(control_free(back));
        assert forall|i: int| 0 <= i < toml_body(s).len() implies #[trigger] toml_body(s)[i]
            > '\u{1f}' by {
            if i < front.len() {
                assert(toml_body(s)[i] == front[i]);
            } else {
                assert(toml_body(s)[i] == back[i - front.len()]);
            }
        }
    }
    assert forall|i: int| 0 <= i < quoted(s).len() implies #[trigger] quoted(s)[i] > '\u{1f}' by {
        if 0 < i < quoted(s).len() - 1 {
            assert(quoted(s)[i] == toml_body(s)[i - 1]);
        }
    }
}

proof fn lemma_joined_control_free(parts: Seq<Seq<char>>, sep: Seq<char>)
    requires
        forall|i: int| 0 <= i < parts.len() ==> control_free(#[trigger] parts[i]),
        control_free(sep),
    ensures
        control_free(text::joined(parts, sep)),
    decreases parts.len(),
{
    if parts.len() == 1 {
        assert(control_free(parts[0]));
    } else if parts.len() > 1 {
        let front = text::joined(parts.drop_last(), sep);
        lemma_joined_control_free(parts.drop_last(), sep);
        assert(control_free(parts.last()));
        let all = text::joined(parts, sep);
        assert forall|i: int| 0 <= i < all.len() implies #[trigger] all[i] > '\u{1f}' by {
            if i < front.len() {
                assert(all[i] == front[i]);
            } else if i < front.len() + sep.len() {
                assert(all[i] == sep[i - front.len()]);
            } else {
                assert(all[i] == parts.last()[i - front.len() - sep.len()]);
            }
        }
    }
}

/// A literal stands on one line, holds no control character, and ends in
/// something other than whitespace.
pub proof fn law_a_literal_is_one_line(f: FieldView, value: Seq<char>)
    ensures
        rendered(f, value) matches Ok(l) ==> control_free(l) && edit::plain_literal(l),
{
    reveal_strlit("[");
    reveal_strlit("]");
    reveal_strlit(", ");
    let v = text::trimmed(value);
    lemma_quoted_control_free(v);
    let parts = languages(v);
    let items = parts.map_values(|p: Seq<char>| quoted(p));
    assert forall|i: int| 0 <= i < items.len() implies control_free(#[trigger] items[i]) by {
        lemma_quoted_control_free(parts[i]);
    }
    if parts.len() > 0 {
        lemma_quoted_control_free(parts[0]);
    }
    lemma_joined_control_free(items, ", "@);
    if let Ok(l) = rendered(f, value) {
        if f.kind == Kind::StrOrList && parts.len() > 1 {
            let middle = text::joined(items, ", "@);
            assert forall|i: int| 0 <= i < l.len() implies #[trigger] l[i] > '\u{1f}' by {
                if 0 < i < l.len() - 1 {
                    assert(l[i] == middle[i - 1]);
                }
            }
        }
        assert(!l.contains('\n')) by {
            if l.contains('\n') {
                let i = choose|i: int| 0 <= i < l.len() && l[i] == '\n';
                assert(l[i] > '\u{1f}');
            }
        }
    }
}

/// The parts with a space before each but the first.
spec fn spaced(parts: Seq<Seq<char>>) -> Seq<Seq<char>> {
    Seq::new(
        parts.len(),
        |i: int|
            if i == 0 {
                parts[i]
            } else {
                seq![' '] + parts[i]
            },
    )
}

proof fn lemma_spaced(parts: Seq<Seq<char>>)
    requires
        parts.len() > 0,
    ensures
        text::joined(parts, ", "@) == text::joined(spaced(parts), seq![',']),
    decreases parts.len(),
{
    reveal_strlit(", ");
    let all = spaced(parts);
    if parts.len() == 1 {
        assert(all[0] == parts[0]);
    } else {
        let front = parts.drop_last();
        lemma_spaced(front);
        assert(all.drop_last() =~= spaced(front));
        assert(all.last() == seq![' '] + parts.last());
        assert(", "@ =~= seq![',', ' ']);
        assert(text::joined(parts, ", "@) =~= text::joined(front, ", "@) + seq![','] + (seq![' ']
            + parts.last()));
    }
}

/// A language tag that a list can hold.
spec fn is_part(p: Seq<char>) -> bool {
    p.len() > 0 && is_tag(p)
}

proof fn lemma_part(p: Seq<char>)
    requires
        is_part(p),
    ensures
        !p.contains(','),
        forall|i: int| 0 <= i < p.len() ==> !text::is_space(#[trigger] p[i]),
        text::trimmed(p) == p,
        text::trimmed(seq![' '] + p) == p,
        !text::blank(p),
        !text::blank(seq![' '] + p),
{
    assert forall|i: int| 0 <= i < p.len() implies !text::is_space(#[trigger] p[i]) && p[i]
        != ',' by {
        assert(is_tag_char(p[i]));
    }
    let q = seq![' '] + p;
    assert(p.skip(0) =~= p);
    assert(p.take(p.len() as int) =~= p);
    text::lemma_trimmed_start_at(p, 0);
    text::lemma_trimmed_end_at(p, p.len() as int);
    assert(q[1] == p[0]);
    assert(q.skip(1) =~= p);
    text::lemma_trimmed_start_at(q, 1);
}

proof fn lemma_nonblank_parts_of_spaced(parts: Seq<Seq<char>>)
    requires
        forall|i: int| 0 <= i < parts.len() ==> is_part(#[trigger] parts[i]),
    ensures
        nonblank_parts(spaced(parts)) == parts,
    decreases parts.len(),
{
    let all = spaced(parts);
    if parts.len() == 0 {
        assert(all.len() == 0);
        assert(nonblank_parts(all) =~= parts);
    } else {
        let front = parts.drop_last();
        assert forall|i: int| 0 <= i < front.len() implies is_part(#[trigger] front[i]) by {
            assert(front[i] == parts[i]);
        }
        lemma_nonblank_parts_of_spaced(front);
        assert(all.drop_last() =~= spaced(front));
        assert(is_part(parts[parts.len() - 1]));
        lemma_part(parts.last());
        assert(nonblank_parts(all) =~= front.push(parts.last()));
        assert(front.push(parts.last()) =~= parts);
    }
}

proof fn lemma_no_non_tag(parts: Seq<Seq<char>>)
    requires
        first_non_tag(parts) is None,
    ensures
        forall|i: int| 0 <= i < parts.len() ==> is_tag(#[trigger] parts[i]),
    decreases parts.len(),
{
    if parts.len() > 0 {
        lemma_no_non_tag(parts.drop_first());
        assert forall|i: int| 0 <= i < parts.len() implies is_tag(#[trigger] parts[i]) by {
            if i > 0 {
                assert(parts[i] == parts.drop_first()[i - 1]);
            }
        }
    }
}

proof fn lemma_nonblank_parts(parts: Seq<Seq<char>>)
    ensures
        forall|i: int|
            0 <= i < nonblank_parts(parts).len() ==> (#[trigger] nonblank_parts(parts)[i]).len() > 0,
    decreases parts.len(),
{
    if parts.len() > 0 {
        lemma_nonblank_parts(parts.drop_last());
        let before = nonblank_parts(parts.drop_last());
        let after = nonblank_parts(parts);
        assert forall|i: int| 0 <= i < after.len() implies (#[trigger] after[i]).len() > 0 by {
            if i < before.len() {
                assert(after[i] == before[i]);
            }
        }
    }
}

proof fn lemma_joined_chars(parts: Seq<Seq<char>>)
    requires
        parts.len() > 0,
        forall|i: int| 0 <= i < parts.len() ==> is_part(#[trigger] parts[i]),
    ensures
        ({
            let s = text::joined(parts, ", "@);
            &&& s.len() > 0
            &&& !text::is_space(s[0])
            &&& !text::is_space(s.last())
            &&& forall|i: int| 0 <= i < s.len() ==> #[trigger] s[i] != '\n' && s[i] != '\r'
        }),
    decreases parts.len(),
{
    reveal_strlit(", ");
    let s = text::joined(parts, ", "@);
    let last = parts[parts.len() - 1];
    assert(is_part(last));
    lemma_part(last);
    if parts.len() == 1 {
        assert(s == last);
    } else {
        let front = parts.drop_last();
        assert forall|i: int| 0 <= i < front.len() implies is_part(#[trigger] front[i]) by {
            assert(front[i] == parts[i]);
        }
        lemma_joined_chars(front);
        let head = text::joined(front, ", "@);
        assert(s == head + ", "@ + last);
        assert(s[0] == head[0]);
        assert(s.last() == last.last());
        assert forall|i: int| 0 <= i < s.len() implies #[trigger] s[i] != '\n' && s[i] != '\r' by {
            if i < head.len() {
                assert(s[i] == head[i]);
            } else if i < head.len() + 2 {
                assert(s[i] == ", "@[i - head.len()]);
            } else {
                assert(s[i] == last[i - head.len() - 2]);
            }
        }
    }
}

/// A list of languages reads back as it was saved: saving the list as it is shown
/// writes the same literal again.
pub proof fn law_a_listed_value_saves_the_same(f: FieldView, value: Seq<char>)
    requires
        f.kind == Kind::StrOrList,
        rendered(f, value) is Ok,
    ensures
        rendered(f, text::joined(languages(text::trimmed(value)), ", "@)) == rendered(f, value),
{
    let parts = languages(text::trimmed(value));
    let shown = text::joined(parts, ", "@);
    lemma_nonblank_parts(text::pieces(text::trimmed(value), ','));
    lemma_no_non_tag(parts);
    assert forall|i: int| 0 <= i < parts.len() implies is_part(#[trigger] parts[i]) by {
        assert(parts[i].len() > 0);
    }
    lemma_joined_chars(parts);
    assert(shown.skip(0) =~= shown);
    assert(shown.take(shown.len() as int) =~= shown);
    text::lemma_trimmed_start_at(shown, 0);
    text::lemma_trimmed_end_at(shown, shown.len() as int);
    assert(text::trimmed(shown) == shown);
    let all = spaced(parts);
    lemma_spaced(parts);
    assert forall|i: int| 0 <= i < all.len() implies !(#[trigger] all[i]).contains(',') by {
        lemma_part(parts[i]);
        if i > 0 {
            assert forall|j: int| 0 <= j < all[i].len() implies all[i][j] != ',' by {
                if j > 0 {
                    assert(all[i][j] == parts[i][j - 1]);
                }
            }
        }
    }
    text::lemma_pieces_joined(all, ',');
    lemma_nonblank_parts_of_spaced(parts);
    assert(languages(shown) == parts);
}

/// Every setting names a key and a table that the edit of a file can write.
pub proof fn law_settings_can_be_edited(i: int)
    requires
        0 <= i < surfaced().len(),
    ensures
        edit::plain_key(surfaced()[i].key),
        edit::plain_table(surfaced()[i].table),
{
    reveal_strlit("language");
    reveal_strlit("model");
    reveal_strlit("initial_prompt");
    reveal_strlit("mode");
    reveal_strlit("key");
    reveal_strlit("whisper");
    reveal_strlit("output");
    reveal_strlit("hotkey");
}

/// The last value saved wins: saving one value and then another leaves what
/// saving the second alone would have left.
pub proof fn law_the_last_saved_value_wins(
    file: Seq<char>,
    i: int,
    first: Seq<char>,
    second: Seq<char>,
)
    requires
        0 <= i < surfaced().len(),
        rendered(surfaced()[i], first) is Ok,
        rendered(surfaced()[i], second) is Ok,
    ensures
        ({
            let f = surfaced()[i];
            let a = rendered(f, first)->Ok_0;
            let b = rendered(f, second)->Ok_0;
            edit::with_key(edit::with_key(file, f.table, f.key, a), f.table, f.key, b)
                == edit::with_key(file, f.table, f.key, b)
        }),
{
    let f = surfaced()[i];
    let a = rendered(f, first)->Ok_0;
    let b = rendered(f, second)->Ok_0;
    law_a_literal_is_one_line(f, first);
    law_settings_can_be_edited(i);
    edit::law_the_last_write_wins(file, f.table, f.key, a, b);
}

/// A setting that was saved is there: for every setting and every value that is
/// not refused, the file assigns the literal to the key in the table, and
/// saving the same value again changes nothing.
pub proof fn law_a_saved_setting_is_there(file: Seq<char>, i: int, value: Seq<char>)
    requires
        0 <= i < surfaced().len(),
        rendered(surfaced()[i], value) is Ok,
    ensures
        ({
            let f = surfaced()[i];
            let l = rendered(f, value)->Ok_0;
            let saved = edit::with_key(file, f.table, f.key, l);
            let lines = edit::raw_lines(saved);
            &&& edit::assignment_from(lines, f.table, f.key, 0) matches Some(j) && 0 <= j
                < lines.len() && text::trimmed(lines[j]) == edit::assignment(f.key, l)
            &&& edit::with_key(saved, f.table, f.key, l) == saved
        }),
{
    let f = surfaced()[i];
    let l = rendered(f, value)->Ok_0;
    law_a_literal_is_one_line(f, value);
    law_settings_can_be_edited(i);
    edit::law_a_key_that_was_set_is_there(file, f.table, f.key, l);
    edit::law_setting_a_key_twice_is_setting_it_once(file, f.table, f.key, l);
}

// ---------------------------------------------------------------------------
// Reading the settings
// ---------------------------------------------------------------------------

/// Where the voxtype config lives, given which of `$VOXTYPE_CONFIG` and `$HOME`
/// are set.
pub fn path(explicit: bool, home: bool) -> (r: Place)
    ensures
        r.base == (if explicit {
            Base::Explicit
        } else if home {
            Base::Home
        } else {
            Base::Here
        }),
        r.below@ == (if explicit {
            ""@
        } else {
            ".config/voxtype/config.toml"@
        }),
{
    if explicit {
        return Place { base: Base::Explicit, below: "" };
    }
    Place {
        base: if home {
            Base::Home
        } else {
            Base::Here
        },
        below: ".config/voxtype/config.toml",
    }
}

/// One setting as it is shown.
#[derive(Debug)]
pub struct Setting {
    pub id: &'static str,
    pub value: String,
    pub present: bool,
    pub help: &'static str,
}

/// The model of a [`Setting`].
pub struct SettingView {
    pub id: Seq<char>,
    pub value: Seq<char>,
    pub present: bool,
    pub help: Seq<char>,
}

impl View for Setting {
    type V = SettingView;

    open spec fn view(&self) -> SettingView {
        SettingView {
            id: self.id@,
            value: self.value@,
            present: self.present,
            help: self.help@,
        }
    }
}

/// The models of a list of settings.
pub open spec fn setting_views(list: Seq<Setting>) -> Seq<SettingView> {
    list.map_values(|s: Setting| s@)
}

/// The texts among the items.
pub open spec fn text_items(items: Seq<Item>) -> Seq<Seq<char>>
    decreases items.len(),
{
    if items.len() == 0 {
        seq![]
    } else {
        match items.last() {
            Item::Text(s) => text_items(items.drop_last()).push(s@),
            _ => text_items(items.drop_last()),
        }
    }
}

/// How a value reads: a text as it is, a list as its texts, and anything else as
/// it displays.
pub open spec fn reading(item: Item) -> Seq<char> {
    match item {
        Item::Text(s) => s@,
        Item::Array(items) => text::joined(text_items(items@), ", "@),
        Item::Table { entries, shown } => shown@,
        Item::Other(shown) => shown@,
    }
}

/// The value of a setting in a document.
pub open spec fn found(f: FieldView, doc: Item) -> Option<Item> {
    match toml_doc::member(doc, f.table) {
        Some(t) => toml_doc::member(t, f.key),
        None => None,
    }
}

/// A setting as a document has it. One that the document does not have is absent,
/// which is normal rather than an error.
pub open spec fn setting_in(f: FieldView, doc: Item) -> SettingView {
    match found(f, doc) {
        Some(item) => SettingView { id: f.id, value: reading(item), present: true, help: f.help },
        None => SettingView { id: f.id, value: ""@, present: false, help: f.help },
    }
}

/// The settings as a document has them.
pub open spec fn settings_in(doc: Item) -> Seq<SettingView> {
    surfaced().map_values(|f: FieldView| setting_in(f, doc))
}

fn list_texts(items: &Vec<Item>) -> (r: Vec<String>)
    ensures
        text::texts(r@) == text_items(items@),
{
    let mut r: Vec<String> = Vec::new();
    let mut i: usize = 0;
    assert(items@.take(0).len() == 0);
    assert(text::texts(r@) =~= text_items(items@.take(0)));
    while i < items.len()
        invariant
            i <= items@.len(),
            text::texts(r@) == text_items(items@.take(i as int)),
        decreases items@.len() - i,
    {
        proof {
            let next = items@.take(i + 1);
            assert(next.drop_last() =~= items@.take(i as int));
            assert(next.last() == items@[i as int]);
        }
        match &items[i] {
            Item::Text(s) => {
                let ghost before = text::texts(r@);
                r.push(s.clone());
                assert(text::texts(r@) =~= before.push(s@));
            },
            _ => {},
        }
        i = i + 1;
    }
    assert(items@.take(items@.len() as int) =~= items@);
    r
}

fn read_item(item: &Item) -> (r: String)
    ensures
        r@ == reading(*item),
{
    match item {
        Item::Text(s) => s.clone(),
        Item::Array(items) => text::join(&list_texts(items), ", "),
        Item::Table { entries, shown } => shown.clone(),
        Item::Other(shown) => shown.clone(),
    }
}

fn read_setting(f: &Field, doc: &Item) -> (r: Setting)
    ensures
        r@ == setting_in(f@, *doc),
{
    match toml_doc::get(doc, f.table) {
        Some(t) => match toml_doc::get(t, f.key) {
            Some(item) => {
                return Setting { id: f.id, value: read_item(item), present: true, help: f.help };
            },
            None => {},
        },
        None => {},
    }
    Setting { id: f.id, value: "".to_string(), present: false, help: f.help }
}

/// The settings as a document has them.
pub fn read_settings(doc: &Item) -> (r: Vec<Setting>)
    ensures
        setting_views(r@) == settings_in(*doc),
{
    let all = fields();
    let ghost views = surfaced();
    let ghost want = settings_in(*doc);
    let mut r: Vec<Setting> = Vec::new();
    let mut i: usize = 0;
    assert(setting_views(r@) =~= want.take(0));
    while i < all.len()
        invariant
            i <= all@.len(),
            views == surfaced(),
            views == field_views(all@),
            want == views.map_values(|f: FieldView| setting_in(f, *doc)),
            setting_views(r@) == want.take(i as int),
        decreases all@.len() - i,
    {
        let ghost before = setting_views(r@);
        assert(views[i as int] == all@[i as int]@);
        r.push(read_setting(&all[i], doc));
        assert(setting_views(r@) =~= before.push(want[i as int]));
        assert(want.take(i + 1) =~= want.take(i as int).push(want[i as int]));
        i = i + 1;
    }
    assert(want.take(i as int) =~= want);
    r
}

/// `item` is the text or the list that saving `value` writes.
pub open spec fn is_saved(f: FieldView, value: Seq<char>, item: Item) -> bool {
    let v = text::trimmed(value);
    let parts = languages(v);
    if f.kind == Kind::Str {
        item matches Item::Text(s) && s@ == v
    } else if parts.len() == 1 {
        item matches Item::Text(s) && s@ == parts[0]
    } else {
        item matches Item::Array(items) && items@.len() == parts.len() && forall|j: int|
            0 <= j < parts.len() ==> (#[trigger] items@[j] matches Item::Text(s) && s@ == parts[j])
    }
}

/// A value as it is shown once it was saved: without the whitespace around it,
/// and a list with its parts tidily apart.
pub open spec fn shown_value(f: FieldView, value: Seq<char>) -> Seq<char> {
    match f.kind {
        Kind::Str => text::trimmed(value),
        Kind::StrOrList => text::joined(languages(text::trimmed(value)), ", "@),
    }
}

proof fn lemma_text_items(items: Seq<Item>, parts: Seq<Seq<char>>)
    requires
        items.len() == parts.len(),
        forall|j: int|
            0 <= j < parts.len() ==> (#[trigger] items[j] matches Item::Text(s) && s@ == parts[j]),
    ensures
        text_items(items) == parts,
    decreases items.len(),
{
    if items.len() == 0 {
        assert(text_items(items) =~= parts);
    } else {
        let front = items.drop_last();
        assert forall|j: int| 0 <= j < front.len() implies (#[trigger] front[j] matches Item::Text(
            s,
        ) && s@ == parts.drop_last()[j]) by {
            assert(front[j] == items[j]);
        }
        lemma_text_items(front, parts.drop_last());
        assert(items[items.len() - 1] matches Item::Text(s) && s@ == parts[parts.len() - 1]);
        assert(text_items(items) =~= parts);
    }
}

/// A setting that was saved is shown as it was saved. Where a document holds under
/// the table and the key what saving a value writes, the value is shown, and
/// marked as present; and the settings on which two documents agree are shown
/// alike.
pub proof fn law_a_saved_value_is_shown(before: Item, after: Item, i: int, value: Seq<char>)
    requires
        0 <= i < surfaced().len(),
        rendered(surfaced()[i], value) is Ok,
        found(surfaced()[i], after) matches Some(item) && is_saved(surfaced()[i], value, item),
    ensures
        ({
            let f = surfaced()[i];
            settings_in(after)[i] == SettingView {
                id: f.id,
                value: shown_value(f, value),
                present: true,
                help: f.help,
            }
        }),
        found(surfaced()[i], after) matches Some(Item::Text(s)) ==> rendered(surfaced()[i], value)
            == Ok::<Seq<char>, Seq<char>>(quoted(s@)) && basic_string(quoted(s@).drop_first())
            == Some(s@),
        found(surfaced()[i], after) matches Some(Item::Array(items)) ==> rendered(
            surfaced()[i],
            value,
        ) == Ok::<Seq<char>, Seq<char>>(
            "["@ + text::joined(
                text_items(items@).map_values(|p: Seq<char>| quoted(p)),
                ", "@,
            ) + "]"@,
        ),
        forall|j: int|
            0 <= j < surfaced().len() && found(surfaced()[j], after) == found(surfaced()[j], before)
                ==> #[trigger] settings_in(after)[j] == settings_in(before)[j],
{
    let f = surfaced()[i];
    let item = found(f, after)->Some_0;
    let parts = languages(text::trimmed(value));
    if let Item::Array(items) = item {
        lemma_text_items(items@, parts);
    }
    if let Item::Text(s) = item {
        law_a_quoted_value_reads_back(s@);
    }
    assert(settings_in(after)[i] == setting_in(f, after));
    assert(parts.len() == 1 ==> text::joined(parts, ", "@) == parts[0]);
}

/// Read the settings out of the text of a voxtype config. A text that is not
/// TOML is refused with the first line of the parse error.
pub fn read(text: &str) -> (r: Result<Vec<Setting>, String>)
    ensures
        match r {
            Ok(list) => toml_doc::toml_value(text@) matches Ok(doc) && setting_views(list@)
                == settings_in(doc),
            Err(e) => toml_doc::toml_value(text@) matches Err(error) && e@ == text::first_line_or(
                error,
                "invalid TOML"@,
            ),
        },
{
    match toml_doc::parse_item(text) {
        Ok(doc) => Ok(read_settings(&doc)),
        Err(e) => Err(text::first_line(e.as_str(), "invalid TOML")),
    }
}

// ---------------------------------------------------------------------------
// Saving a setting
// ---------------------------------------------------------------------------

/// The file with the setting in it, or why it cannot be put there.
pub open spec fn edited_file(
    id: Seq<char>,
    value: Seq<char>,
    path: Seq<char>,
    file: Result<Seq<char>, Seq<char>>,
) -> Result<Seq<char>, Seq<char>> {
    match first_named(surfaced(), id) {
        None => Err("unknown setting \""@ + id + "\""@),
        Some(f) => match rendered(f, value) {
            Err(e) => Err(e),
            Ok(literal) => match file {
                Err(e) => Err(place::could_not_text("read"@, path, e)),
                Ok(text) => Ok(edit::with_key(text, f.table, f.key, literal)),
            },
        },
    }
}

/// What is left to do once a file was edited.
#[derive(Debug)]
pub enum SaveStep {
    /// Nothing: the file already says so.
    Unchanged,
    /// Back the file up, and only then write this to it.
    Replace(String),
}

/// The model of a [`SaveStep`].
pub enum SaveStepView {
    Unchanged,
    Replace(Seq<char>),
}

impl View for SaveStep {
    type V = SaveStepView;

    open spec fn view(&self) -> SaveStepView {
        match self {
            SaveStep::Unchanged => SaveStepView::Unchanged,
            SaveStep::Replace(t) => SaveStepView::Replace(t@),
        }
    }
}

/// What is left to do once a file was edited, given what the edited text was
/// parsed into. An edit that is not TOML any more is refused before anything is
/// touched.
pub open spec fn next_step(
    text: Seq<char>,
    updated: Seq<char>,
    doc: Result<Item, Seq<char>>,
) -> Result<SaveStepView, Seq<char>> {
    match doc {
        Err(e) => Err("edit would break the config: "@ + text::first_line_or(e, ""@)),
        Ok(_) => if updated == text {
            Ok(SaveStepView::Unchanged)
        } else {
            Ok(SaveStepView::Replace(updated))
        },
    }
}

/// The outcome of a step, in the model.
pub open spec fn step_result(r: Result<SaveStep, String>) -> Result<SaveStepView, Seq<char>> {
    match r {
        Ok(s) => Ok(s@),
        Err(e) => Err(e@),
    }
}

/// Put a setting into the text of a file, where the file could be read.
pub fn edit_file(id: &str, value: &str, path: &str, file: &Result<String, String>) -> (r: Result<
    String,
    String,
>)
    ensures
        result_text(r) == edited_file(id@, value@, path@, result_text(*file)),
{
    let f = match field(id) {
        Some(f) => f,
        None => {
            let mut e = "unknown setting \"".to_string();
            e.append(id);
            e.append("\"");
            return Err(e);
        },
    };
    let l = match literal(&f, value) {
        Ok(l) => l,
        Err(e) => return Err(e),
    };
    match file {
        Err(e) => Err(place::could_not("read", path, e.as_str())),
        Ok(text) => Ok(edit::set_key(text.as_str(), f.table, f.key, l.as_str())),
    }
}

/// What is left to do once the text of a file was edited, given what the edited
/// text was parsed into.
pub fn check_edit(text: &str, updated: String, doc: &Result<Item, String>) -> (r: Result<
    SaveStep,
    String,
>)
    ensures
        step_result(r) == next_step(
            text@,
            updated@,
            match *doc {
                Ok(item) => Ok(item),
                Err(e) => Err(e@),
            },
        ),
{
    match doc {
        Err(e) => {
            let mut m = "edit would break the config: ".to_string();
            m.append(text::first_line(e.as_str(), "").as_str());
            Err(m)
        },
        Ok(_) => {
            if text::same(updated.as_str(), text) {
                Ok(SaveStep::Unchanged)
            } else {
                Ok(SaveStep::Replace(updated))
            }
        },
    }
}

/// Apply one change of a setting to the text of the file at `path`.
///
/// The order is: read, edit, parse again, back up, write. The parse comes before
/// the backup, so that a malformed edit costs nothing at all.
pub fn save(id: &str, value: &str, path: &str, file: Result<String, String>) -> (r: Result<
    SaveStep,
    String,
>)
    ensures
        match edited_file(id@, value@, path@, result_text(file)) {
            Err(e) => step_result(r) == Err::<SaveStepView, Seq<char>>(e),
            Ok(updated) => file is Ok && step_result(r) == next_step(
                file->Ok_0@,
                updated,
                toml_doc::toml_value(updated),
            ),
        },
{
    let updated = match edit_file(id, value, path, &file) {
        Ok(updated) => updated,
        Err(e) => return Err(e),
    };
    let doc = toml_doc::parse_item(updated.as_str());
    match file {
        Ok(text) => check_edit(text.as_str(), updated, &doc),
        Err(e) => Err(e),
    }
}

/// How a save that had nothing to do is reported.
pub fn unchanged() -> (r: String)
    ensures
        r@ == "no change"@,
{
    "no change".to_string()
}

/// How a save is reported, once the file at `path` was backed up and written.
pub fn written(path: &str, backup: &str, write: Result<(), String>) -> (r: Result<String, String>)
    ensures
        match write {
            Ok(_) => r matches Ok(m) && m@ == "saved — backup at "@ + backup@,
            Err(e) => r matches Err(m) && m@ == place::could_not_text("write"@, path@, e@),
        },
{
    match write {
        Ok(_) => {
            let mut m = "saved — backup at ".to_string();
            m.append(backup);
            Ok(m)
        },
        Err(e) => Err(place::could_not("write", path, e.as_str())),
    }
}

/// How many names a backup may take in one second.
pub const BACKUP_NAMES: u32 = 100;

/// The extension of the backup made at `stamp`, when the first `taken` names are
/// in use.
pub open spec fn backup_extension(stamp: nat, taken: nat) -> Seq<char> {
    if taken == 0 {
        "toml.bak-"@ + text::decimal(stamp)
    } else {
        "toml.bak-"@ + text::decimal(stamp) + "-"@ + text::decimal(taken)
    }
}

/// The first name from the `n`th on that is not in use.
pub open spec fn free_name(used: Set<Seq<char>>, stamp: nat, n: nat) -> Option<Seq<char>>
    decreases BACKUP_NAMES - n,
{
    if n >= BACKUP_NAMES {
        None
    } else if !used.contains(backup_extension(stamp, n)) {
        Some(backup_extension(stamp, n))
    } else {
        free_name(used, stamp, n + 1)
    }
}

/// `in_use` tells of every name whether it is one of `used`.
pub open spec fn tells<F: Fn(&str) -> bool>(in_use: F, used: Set<Seq<char>>) -> bool {
    forall|name: &str, b: bool| #[trigger]
        in_use.ensures((name,), b) ==> b == used.contains(name@)
}

/// What a backup under `name` comes to, given how the copying went.
pub open spec fn backup_result(
    path: Seq<char>,
    name: Seq<char>,
    copied: Result<(), String>,
) -> Result<Seq<char>, Seq<char>> {
    match copied {
        Ok(_) => Ok(name),
        Err(e) => Err(place::could_not_text("back up"@, path, e@)),
    }
}

fn name_backup(stamp: u64, taken: u32) -> (r: String)
    ensures
        r@ == backup_extension(stamp as nat, taken as nat),
{
    let mut r = "toml.bak-".to_string();
    r.append(text::to_decimal(stamp as u128).as_str());
    if taken > 0 {
        r.append("-");
        r.append(text::to_decimal(taken as u128).as_str());
    }
    r
}

/// Back the file at `path` up beside itself at `stamp` seconds, under the first
/// extension that is not in use, and tell which. An existing backup is never
/// overwritten: the first one of a second holds the state that is worth having.
/// Refusing is the point: without a backup nothing is written, because this
/// program is not the only writer of the file.
pub fn backup<F: Fn(&str) -> bool, G: FnOnce(&str) -> Result<(), String>>(
    path: &str,
    stamp: u64,
    in_use: F,
    copy: G,
) -> (r: Result<String, String>)
    requires
        forall|name: &str| in_use.requires((name,)),
        forall|name: &str| copy.requires((name,)),
    ensures
        r matches Ok(e) ==> exists|name: &str, copied: Result<(), String>|
            {
                &&& name@ == e@
                &&& in_use.ensures((name,), false)
                &&& copied is Ok
                &&& #[trigger] copy.ensures((name,), copied)
            },
        forall|used: Set<Seq<char>>| #[trigger]
            tells(in_use, used) ==> match free_name(used, stamp as nat, 0) {
                Some(free) => exists|name: &str, copied: Result<(), String>|
                    {
                        &&& name@ == free
                        &&& #[trigger] copy.ensures((name,), copied)
                        &&& result_text(r) == backup_result(path@, free, copied)
                    },
                None => result_text(r) == Err::<Seq<char>, Seq<char>>(
                    "too many backups in the same second"@,
                ),
            },
{
    let mut taken: u32 = 0;
    while taken < BACKUP_NAMES
        invariant
            taken <= BACKUP_NAMES,
            forall|name: &str| in_use.requires((name,)),
            forall|name: &str| copy.requires((name,)),
            forall|used: Set<Seq<char>>| #[trigger]
                tells(in_use, used) ==> free_name(used, stamp as nat, 0) == free_name(
                    used,
                    stamp as nat,
                    taken as nat,
                ),
        decreases BACKUP_NAMES - taken,
    {
        let e = name_backup(stamp, taken);
        let name = e.as_str();
        if !in_use(name) {
            assert(in_use.ensures((name,), false));
            let copied = copy(name);
            assert(copy.ensures((name,), copied));
            return match copied {
                Ok(_) => Ok(e),
                Err(why) => Err(place::could_not("back up", path, why.as_str())),
            };
        }
        taken = taken + 1;
    }
    Err("too many backups in the same second".to_string())
}

/// Two backups of one second have different names.
pub proof fn law_backups_of_one_second_are_distinct(stamp: nat, a: nat, b: nat)
    requires
        a != b,
    ensures
        backup_extension(stamp, a) != backup_extension(stamp, b),
{
    reveal_strlit("-");
    let front = "toml.bak-"@ + text::decimal(stamp);
    if a > 0 && b > 0 {
        let x = backup_extension(stamp, a);
        let y = backup_extension(stamp, b);
        assert(x.skip(front.len() as int + 1) =~= text::decimal(a));
        assert(y.skip(front.len() as int + 1) =~= text::decimal(b));
        if x == y {
            text::lemma_decimal_injective(a, b);
        }
    } else if a == 0 {
        assert(backup_extension(stamp, b).len() > front.len());
    } else {
        assert(backup_extension(stamp, a).len() > front.len());
    }
}

/// The files beside the config after a backup of a file that holds `content`, by
/// their extensions, and the extension of the backup. A file that is not there
/// cannot be backed up.
pub open spec fn backup_made(
    beside: Map<Seq<char>, Seq<char>>,
    content: Option<Seq<char>>,
    stamp: nat,
) -> Option<(Seq<char>, Map<Seq<char>, Seq<char>>)> {
    match (content, free_name(beside.dom(), stamp, 0)) {
        (Some(c), Some(name)) => Some((name, beside.insert(name, c))),
        _ => None,
    }
}

proof fn lemma_free_name(used: Set<Seq<char>>, stamp: nat, n: nat)
    ensures
        free_name(used, stamp, n) matches Some(name) ==> !used.contains(name),
    decreases BACKUP_NAMES - n,
{
    if n < BACKUP_NAMES && used.contains(backup_extension(stamp, n)) {
        lemma_free_name(used, stamp, n + 1);
    }
}

/// A backup takes a name that was free, holds what the file held, and leaves
/// every other file alone. So a second backup, in the same second or not, leaves
/// the first one as it was.
pub proof fn law_a_backup_spares_every_other(
    beside: Map<Seq<char>, Seq<char>>,
    content: Option<Seq<char>>,
    stamp: nat,
)
    ensures
        content is None ==> backup_made(beside, content, stamp) is None,
        backup_made(beside, content, stamp) matches Some((name, after)) ==> {
            &&& !beside.contains_key(name)
            &&& after.contains_key(name)
            &&& Some(after[name]) == content
            &&& forall|other: Seq<char>| #[trigger]
                beside.contains_key(other) ==> other != name && after.contains_key(other)
                    && after[other] == beside[other]
        },
{
    lemma_free_name(beside.dom(), stamp, 0);
}

/// Saving never writes a file that does not parse, never writes one that stays
/// the same, and changes nothing but the setting: what is written is the file
/// with the literal of the value assigned to the key in the table.
pub proof fn law_a_save_writes_a_checked_edit(
    id: Seq<char>,
    value: Seq<char>,
    path: Seq<char>,
    text: Seq<char>,
    written: Seq<char>,
)
    requires
        edited_file(id, value, path, Ok(text)) matches Ok(updated) && next_step(
            text,
            updated,
            toml_doc::toml_value(updated),
        ) == Ok::<SaveStepView, Seq<char>>(SaveStepView::Replace(written)),
    ensures
        toml_doc::toml_value(written) is Ok,
        written != text,
        exists|i: int|
            0 <= i < surfaced().len() && {
                let f = #[trigger] surfaced()[i];
                &&& f.id == id
                &&& rendered(f, value) is Ok
                &&& written == edit::with_key(text, f.table, f.key, rendered(f, value)->Ok_0)
            },
{
    lemma_first_named(surfaced(), id);
}

proof fn lemma_first_named(list: Seq<FieldView>, id: Seq<char>)
    ensures
        match first_named(list, id) {
            Some(f) => exists|i: int| 0 <= i < list.len() && #[trigger] list[i] == f && f.id == id,
            None => forall|i: int| 0 <= i < list.len() ==> (#[trigger] list[i]).id != id,
        },
    decreases list.len(),
{
    if list.len() > 0 && list[0].id != id {
        let rest = list.drop_first();
        lemma_first_named(rest, id);
        match first_named(rest, id) {
            Some(f) => {
                let i = choose|i: int|
                    0 <= i < rest.len() && #[trigger] rest[i] == f && f.id == id;
                assert(list[i + 1] == f);
            },
            None => {
                assert forall|i: int| 0 <= i < list.len() implies (#[trigger] list[i]).id
                    != id by {
                    if i > 0 {
                        assert(list[i] == rest[i - 1]);
                    }
                }
            },
        }
    }
}

// ---------------------------------------------------------------------------
// What saving a setting can be relied on for
// ---------------------------------------------------------------------------

/// `s` stands on one line.
pub open spec fn on_one_line(s: Seq<char>) -> bool {
    forall|i: int| 0 <= i < s.len() ==> #[trigger] s[i] != '\n' && s[i] != '\r'
}

proof fn lemma_on_one_line(s: Seq<char>)
    ensures
        on_one_line(s) <==> !s.contains('\n') && !s.contains('\r'),
{
    if on_one_line(s) {
        if s.contains('\n') {
            let i = choose|i: int| 0 <= i < s.len() && s[i] == '\n';
            assert(s[i] != '\n');
        }
        if s.contains('\r') {
            let i = choose|i: int| 0 <= i < s.len() && s[i] == '\r';
            assert(s[i] != '\r');
        }
    } else {
        let i = choose|i: int| 0 <= i < s.len() && (#[trigger] s[i] == '\n' || s[i] == '\r');
        assert(s.contains(s[i]));
    }
}

/// A text setting takes every text: any value that stands on one line and holds
/// more than whitespace is accepted, whatever is in it, and is written as that
/// text in quotes, without the whitespace around it. Only an empty value and one of
/// several lines are refused.
pub proof fn law_a_text_setting_takes_every_text(
    f: FieldView,
    before: Seq<char>,
    core: Seq<char>,
    behind: Seq<char>,
)
    requires
        f.kind == Kind::Str,
        forall|i: int| 0 <= i < before.len() ==> text::is_space(#[trigger] before[i]),
        forall|i: int| 0 <= i < behind.len() ==> text::is_space(#[trigger] behind[i]),
        core.len() > 0 ==> !text::is_space(core[0]) && !text::is_space(core.last()),
    ensures
        ({
            let r = rendered(f, before + core + behind);
            &&& core.len() > 0 && on_one_line(core) ==> r == Ok::<Seq<char>, Seq<char>>(
                quoted(core),
            )
            &&& core.len() == 0 ==> (r matches Err(e) && text::occurs_at(e, f.key, 0))
            &&& !on_one_line(core) ==> r == Err::<Seq<char>, Seq<char>>(
                "value must be a single line"@,
            )
        }),
{
    text::law_trimming_leaves_what_stands_between(before, core, behind);
    lemma_on_one_line(core);
    let e = f.key + " cannot be empty"@;
    assert(e.subrange(0, f.key.len() as int) =~= f.key);
}

proof fn lemma_parts_kept(parts: Seq<Seq<char>>)
    ensures
        nonblank_parts(parts) == parts.filter(|p: Seq<char>| !text::blank(p)).map_values(
            |p: Seq<char>| text::trimmed(p),
        ),
    decreases parts.len(),
{
    reveal(Seq::filter);
    let kept = parts.filter(|p: Seq<char>| !text::blank(p));
    let all = kept.map_values(|p: Seq<char>| text::trimmed(p));
    if parts.len() == 0 {
        assert(nonblank_parts(parts) =~= all);
    } else {
        let front = parts.drop_last();
        lemma_parts_kept(front);
        assert(nonblank_parts(parts) =~= all);
    }
}

proof fn lemma_first_non_tag(parts: Seq<Seq<char>>)
    ensures
        first_non_tag(parts) is None <==> forall|i: int|
            0 <= i < parts.len() ==> is_tag(#[trigger] parts[i]),
    decreases parts.len(),
{
    if parts.len() > 0 {
        let rest = parts.drop_first();
        lemma_first_non_tag(rest);
        if is_tag(parts[0]) {
            if forall|i: int| 0 <= i < rest.len() ==> is_tag(#[trigger] rest[i]) {
                assert forall|i: int| 0 <= i < parts.len() implies is_tag(#[trigger] parts[i]) by {
                    if i > 0 {
                        assert(parts[i] == rest[i - 1]);
                    }
                }
            }
            if forall|i: int| 0 <= i < parts.len() ==> is_tag(#[trigger] parts[i]) {
                assert forall|i: int| 0 <= i < rest.len() implies is_tag(#[trigger] rest[i]) by {
                    assert(rest[i] == parts[i + 1]);
                }
            }
        } else {
            assert(!is_tag(parts[0]));
        }
    }
}

/// A language setting takes every list of tags: the parts between commas, without
/// the whitespace around them and without the empty ones, are accepted where there
/// is at least one and each is made of ASCII letters, digits, `-` and `_`, and of
/// nothing else. One is written as a text, several as a list, in their order.
pub proof fn law_a_language_setting_takes_every_list_of_tags(f: FieldView, value: Seq<char>)
    requires
        f.kind == Kind::StrOrList,
    ensures
        ({
            let v = text::trimmed(value);
            let parts = text::pieces(v, ',').filter(
                |p: Seq<char>| !text::blank(p),
            ).map_values(|p: Seq<char>| text::trimmed(p));
            let sound = forall|i: int, j: int|
                0 <= i < parts.len() && 0 <= j < parts[i].len() ==> {
                    let c = #[trigger] parts[i][j];
                    'a' <= c <= 'z' || 'A' <= c <= 'Z' || '0' <= c <= '9' || c == '-' || c == '_'
                };
            &&& rendered(f, value) is Ok <==> on_one_line(v) && parts.len() > 0 && sound
            &&& on_one_line(v) && parts.len() == 1 && sound ==> rendered(f, value) == Ok::<
                Seq<char>,
                Seq<char>,
            >(quoted(parts[0]))
            &&& on_one_line(v) && parts.len() > 1 && sound ==> rendered(f, value) == Ok::<
                Seq<char>,
                Seq<char>,
            >(
                "["@ + text::joined(
                    parts.map_values(|p: Seq<char>| quoted(p)),
                    ", "@,
                ) + "]"@,
            )
        }),
{
    let v = text::trimmed(value);
    let parts = text::pieces(v, ',').filter(|p: Seq<char>| !text::blank(p)).map_values(
        |p: Seq<char>| text::trimmed(p),
    );
    lemma_on_one_line(v);
    lemma_parts_kept(text::pieces(v, ','));
    lemma_first_non_tag(parts);
    if first_non_tag(parts) is None {
        assert forall|i: int, j: int| 0 <= i < parts.len() && 0 <= j < parts[i].len() implies {
            let c = #[trigger] parts[i][j];
            'a' <= c <= 'z' || 'A' <= c <= 'Z' || '0' <= c <= '9' || c == '-' || c == '_'
        } by {
            assert(is_tag(parts[i]));
            assert(is_tag_char(parts[i][j]));
        }
    } else {
        let i = choose|i: int| 0 <= i < parts.len() && !is_tag(#[trigger] parts[i]);
        let j = choose|j: int| 0 <= j < parts[i].len() && !is_tag_char(#[trigger] parts[i][j]);
        assert(!is_tag_char(parts[i][j]));
    }
}

/// An id names the setting that has it, and an id that none has names none.
pub proof fn law_an_id_names_its_setting(i: int, id: Seq<char>)
    requires
        0 <= i < surfaced().len(),
    ensures
        first_named(surfaced(), surfaced()[i].id) == Some(surfaced()[i]),
        first_named(surfaced(), id) is None <==> forall|j: int|
            0 <= j < surfaced().len() ==> (#[trigger] surfaced()[j]).id != id,
{
    let all = surfaced();
    lemma_first_named(all, all[i].id);
    lemma_first_named(all, id);
    match first_named(all, all[i].id) {
        Some(f) => {
            let j = choose|j: int| 0 <= j < all.len() && #[trigger] all[j] == f && f.id == all[i].id;
            if j < i {
                law_setting_ids_are_distinct(j, i);
            } else if i < j {
                law_setting_ids_are_distinct(i, j);
            }
        },
        None => {
            assert(all[i].id != all[i].id);
        },
    }
}

/// Saving a value that is sound edits the file: the setting of the id is assigned
/// the literal in its own table. A file that cannot be read, an unknown id and a
/// value that is refused stop the save before anything is touched, and say so.
pub proof fn law_a_sound_save_edits_the_file(
    i: int,
    value: Seq<char>,
    path: Seq<char>,
    file: Result<Seq<char>, Seq<char>>,
)
    requires
        0 <= i < surfaced().len(),
    ensures
        ({
            let f = surfaced()[i];
            let r = edited_file(f.id, value, path, file);
            &&& rendered(f, value) matches Err(e) ==> r == Err::<Seq<char>, Seq<char>>(e)
            &&& rendered(f, value) is Ok && file is Err ==> (r matches Err(e) && text::holds(
                e,
                path,
            ) && file->Err_0.is_suffix_of(e))
            &&& rendered(f, value) is Ok && file is Ok ==> r == Ok::<Seq<char>, Seq<char>>(
                edit::with_key(file->Ok_0, f.table, f.key, rendered(f, value)->Ok_0),
            )
        }),
{
    law_an_id_names_its_setting(i, surfaced()[i].id);
    if let Err(why) = file {
        let e = place::could_not_text("read"@, path, why);
        let n = ("could not "@ + "read"@ + " "@).len() as int;
        assert(e.subrange(n, n + path.len()) =~= path);
        assert(text::occurs_at(e, path, n));
        assert(why =~= e.subrange(e.len() - why.len(), e.len() as int));
    }
}

/// What is saved is written exactly where it changes the file and the file still
/// parses; a file that would stay the same is left alone.
pub proof fn law_a_save_replaces_what_changes(
    text: Seq<char>,
    updated: Seq<char>,
    doc: Result<Item, Seq<char>>,
)
    ensures
        doc is Ok && updated != text ==> next_step(text, updated, doc) == Ok::<
            SaveStepView,
            Seq<char>,
        >(SaveStepView::Replace(updated)),
        doc is Ok && updated == text ==> next_step(text, updated, doc) == Ok::<
            SaveStepView,
            Seq<char>,
        >(SaveStepView::Unchanged),
        doc matches Err(e) ==> (next_step(text, updated, doc) matches Err(m)
            && text::first_line_or(e, ""@).is_suffix_of(m)),
{
    if let Err(e) = doc {
        let line = text::first_line_or(e, ""@);
        let m = "edit would break the config: "@ + line;
        assert(line =~= m.subrange(m.len() - line.len(), m.len() as int));
    }
}

/// Every setting is shown, in the order of the settings and under its own id; one
/// that the document does not have is shown as absent and empty.
pub proof fn law_every_setting_is_shown(doc: Item, i: int)
    requires
        0 <= i < surfaced().len(),
    ensures
        settings_in(doc).len() == surfaced().len(),
        settings_in(doc)[i].id == surfaced()[i].id,
        settings_in(doc)[i].help == surfaced()[i].help,
        settings_in(doc)[i].present <==> found(surfaced()[i], doc) is Some,
        !settings_in(doc)[i].present ==> settings_in(doc)[i].value.len() == 0,
{
    reveal_strlit("");
    assert(settings_in(doc)[i] == setting_in(surfaced()[i], doc));
}

/// A setting is looked for under its key in its table: where a document has the
/// table and the table has the key, what stands there is what is shown, a text to
/// the letter and a list as its texts.
pub proof fn law_a_setting_is_read_from_its_table(
    i: int,
    tables: Vec<(String, Item)>,
    t: int,
    values: Vec<(String, Item)>,
    v: int,
    shown: String,
    inner: String,
)
    requires
        0 <= i < surfaced().len(),
        0 <= t < tables@.len(),
        tables@[t].0@ == surfaced()[i].table,
        forall|j: int| 0 <= j < t ==> (#[trigger] tables@[j]).0@ != surfaced()[i].table,
        tables@[t].1 == (Item::Table { entries: values, shown: inner }),
        0 <= v < values@.len(),
        values@[v].0@ == surfaced()[i].key,
        forall|j: int| 0 <= j < v ==> (#[trigger] values@[j]).0@ != surfaced()[i].key,
    ensures
        ({
            let s = settings_in(Item::Table { entries: tables, shown })[i];
            &&& s.present
            &&& values@[v].1 matches Item::Text(x) ==> s.value == x@
            &&& values@[v].1 matches Item::Array(items) ==> s.value == text::joined(
                items@.filter(|x: Item| x is Text).map_values(|x: Item| x->Text_0@),
                ", "@,
            )
            &&& values@[v].1 matches Item::Other(x) ==> s.value == x@
            &&& values@[v].1 matches Item::Table { shown: x, .. } ==> s.value == x@
        }),
{
    let doc = Item::Table { entries: tables, shown };
    toml_doc::law_a_key_finds_its_value(tables@, surfaced()[i].table, t);
    toml_doc::law_a_key_finds_its_value(values@, surfaced()[i].key, v);
    assert(settings_in(doc)[i] == setting_in(surfaced()[i], doc));
    if let Item::Array(items) = values@[v].1 {
        lemma_texts_kept(items@);
    }
}

proof fn lemma_texts_kept(items: Seq<Item>)
    ensures
        text_items(items) == items.filter(|x: Item| x is Text).map_values(
            |x: Item| x->Text_0@,
        ),
    decreases items.len(),
{
    reveal(Seq::filter);
    let all = items.filter(|x: Item| x is Text).map_values(|x: Item| x->Text_0@);
    if items.len() == 0 {
        assert(text_items(items) =~= all);
    } else {
        lemma_texts_kept(items.drop_last());
        assert(text_items(items) =~= all);
    }
}

/// A backup is named after its second, and the name with the lowest number that is
/// free is taken: the first of a second has no number.
pub proof fn law_a_backup_takes_the_first_free_name(used: Set<Seq<char>>, stamp: nat, n: nat)
    requires
        forall|m: nat| m < n ==> used.contains(#[trigger] backup_extension(stamp, m)),
    ensures
        n < 100 && !used.contains(backup_extension(stamp, n)) ==> free_name(used, stamp, 0) == Some(
            backup_extension(stamp, n),
        ),
        n >= 100 ==> free_name(used, stamp, 0) is None,
        backup_extension(stamp, 0) == "toml.bak-"@ + text::decimal(stamp),
        n > 0 ==> backup_extension(stamp, n) == backup_extension(stamp, 0) + "-"@ + text::decimal(n),
{
    lemma_names_from(used, stamp, n, 0);
}

proof fn lemma_names_from(used: Set<Seq<char>>, stamp: nat, n: nat, from: nat)
    requires
        from <= n,
        forall|m: nat| m < n ==> used.contains(#[trigger] backup_extension(stamp, m)),
    ensures
        n < 100 && !used.contains(backup_extension(stamp, n)) ==> free_name(used, stamp, from)
            == Some(backup_extension(stamp, n)),
        n >= 100 ==> free_name(used, stamp, from) is None,
    decreases n - from,
{
    if from < n {
        assert(used.contains(backup_extension(stamp, from)));
        lemma_names_from(used, stamp, n, from + 1);
    }
}

/// The settings that are surfaced: the language, which can be a list, and four texts;
/// the first three are those of whisper, then the mode of the output and the key to
/// talk with.
pub proof fn law_where_the_settings_stand(i: int)
    requires
        0 <= i < surfaced().len(),
    ensures
        surfaced().len() == 5,
        surfaced()[i].kind == Kind::StrOrList <==> surfaced()[i].id == "language"@,
        i < 3 ==> surfaced()[i].table == "whisper"@ && surfaced()[i].key == surfaced()[i].id,
        surfaced()[i].id == "output_mode"@ ==> surfaced()[i].table == "output"@ && surfaced()[i].key
            == "mode"@,
        surfaced()[i].id == "hotkey_key"@ ==> surfaced()[i].table == "hotkey"@ && surfaced()[i].key
            == "key"@,
        exists|j: int| 0 <= j < 3 && #[trigger] surfaced()[j].id == "language"@,
        exists|j: int| 0 <= j < 3 && #[trigger] surfaced()[j].id == "model"@,
        exists|j: int| 0 <= j < 3 && #[trigger] surfaced()[j].id == "initial_prompt"@,
        exists|j: int| 0 <= j < 5 && #[trigger] surfaced()[j].id == "output_mode"@,
        exists|j: int| 0 <= j < 5 && #[trigger] surfaced()[j].id == "hotkey_key"@,
{
    reveal_strlit("language");
    reveal_strlit("model");
    reveal_strlit("initial_prompt");
    reveal_strlit("output_mode");
    reveal_strlit("hotkey_key");
    assert("language"@.len() == 8);
    assert("model"@.len() == 5);
    assert("initial_prompt"@.len() == 14);
    assert("output_mode"@.len() == 11);
    assert("hotkey_key"@.len() == 10);
    assert(surfaced()[0].id == "language"@);
    assert(surfaced()[1].id == "model"@);
    assert(surfaced()[2].id == "initial_prompt"@);
    assert(surfaced()[3].id == "output_mode"@);
    assert(surfaced()[4].id == "hotkey_key"@);
}

/// A list of languages that is refused is told by one that is no tag, or, where it
/// holds none at all, by the setting that needs one.
pub proof fn law_a_refused_language_is_named(f: FieldView, value: Seq<char>)
    requires
        f.kind == Kind::StrOrList,
        on_one_line(text::trimmed(value)),
        rendered(f, value) is Err,
    ensures
        ({
            let e = rendered(f, value)->Err_0;
            let parts = languages(text::trimmed(value));
            &&& parts.len() == 0 ==> text::occurs_at(e, f.key, 0)
            &&& parts.len() > 0 ==> exists|i: int|
                0 <= i < parts.len() && !is_tag(#[trigger] parts[i]) && text::occurs_at(
                    e,
                    "\""@ + parts[i] + "\""@,
                    0,
                ) && forall|j: int| 0 <= j < i ==> is_tag(#[trigger] parts[j])
        }),
{
    let v = text::trimmed(value);
    let parts = languages(v);
    let e = rendered(f, value)->Err_0;
    lemma_on_one_line(v);
    if parts.len() == 0 {
        assert(e.subrange(0, f.key.len() as int) =~= f.key);
    } else {
        reveal_strlit("\"");
        reveal_strlit("\" is not a language tag");
        let i = lemma_non_tag_at(parts);
        let pat = "\""@ + parts[i] + "\""@;
        assert(e.subrange(0, pat.len() as int) =~= pat);
        assert(text::occurs_at(e, pat, 0));
    }
}

proof fn lemma_non_tag_at(parts: Seq<Seq<char>>) -> (i: int)
    requires
        first_non_tag(parts) is Some,
    ensures
        0 <= i < parts.len(),
        !is_tag(parts[i]),
        first_non_tag(parts) == Some(parts[i]),
        forall|j: int| 0 <= j < i ==> is_tag(#[trigger] parts[j]),
    decreases parts.len(),
{
    if !is_tag(parts[0]) {
        0
    } else {
        let rest = parts.drop_first();
        let i = lemma_non_tag_at(rest);
        assert(rest[i] == parts[i + 1]);
        assert forall|j: int| 0 <= j < i + 1 implies is_tag(#[trigger] parts[j]) by {
            if j > 0 {
                assert(parts[j] == rest[j - 1]);
            }
        }
        i + 1
    }
}

/// Text that needs no escape is written as it is, between quotes; a quote or a
/// backslash gets a backslash before it, and nothing around it changes.
pub proof fn law_a_quoted_text_is_the_text(before: Seq<char>, c: char, behind: Seq<char>)
    ensures
        (forall|i: int|
            0 <= i < before.len() ==> #[trigger] before[i] >= ' ' && before[i] != '"' && before[i]
                != '\\' && before[i] != '\u{7f}') ==> quoted(before) == seq!['"'] + before
            + seq!['"'],
        toml_body(before + behind) == toml_body(before) + toml_body(behind),
        c == '"' || c == '\\' ==> toml_body(before + seq![c] + behind) == toml_body(before) + seq![
            '\\',
            c,
        ] + toml_body(behind),
{
    lemma_toml_body_concat(before, behind);
    lemma_toml_body_concat(before, seq![c]);
    lemma_toml_body_concat(before + seq![c], behind);
    assert(seq![c].drop_last().len() == 0);
    assert(toml_body(seq![c].drop_last()).len() == 0);
    assert(toml_body(seq![c]) =~= toml_char(c));
    if c == '"' || c == '\\' {
        assert(toml_char(c) =~= seq!['\\', c]);
    }
    if forall|i: int|
        0 <= i < before.len() ==> #[trigger] before[i] >= ' ' && before[i] != '"' && before[i]
            != '\\' && before[i] != '\u{7f}' {
        lemma_toml_body_plain(before);
    }
}

proof fn lemma_toml_body_concat(a: Seq<char>, b: Seq<char>)
    ensures
        toml_body(a + b) == toml_body(a) + toml_body(b),
    decreases b.len(),
{
    if b.len() == 0 {
        assert(a + b =~= a);
        assert(toml_body(a) + toml_body(b) =~= toml_body(a));
    } else {
        lemma_toml_body_concat(a, b.drop_last());
        assert((a + b).drop_last() =~= a + b.drop_last());
        assert((a + b).last() == b.last());
        assert(toml_body(a + b) =~= toml_body(a) + toml_body(b));
    }
}

proof fn lemma_toml_body_plain(s: Seq<char>)
    requires
        forall|i: int|
            0 <= i < s.len() ==> #[trigger] s[i] >= ' ' && s[i] != '"' && s[i] != '\\' && s[i]
                != '\u{7f}',
    ensures
        toml_body(s) == s,
    decreases s.len(),
{
    if s.len() > 0 {
        let front = s.drop_last();
        assert forall|i: int| 0 <= i < front.len() implies #[trigger] front[i] >= ' ' && front[i]
            != '"' && front[i] != '\\' && front[i] != '\u{7f}' by {
            assert(front[i] == s[i]);
        }
        lemma_toml_body_plain(front);
        assert(s[s.len() - 1] >= ' ');
        assert(front + seq![s.last()] =~= s);
    }
}

/// Saving a text into a file that could be read writes the file with that text assigned
/// to the key in the table, wherever the file still parses then; nothing is written
/// where the file already says so.
pub proof fn law_saving_a_text_writes_it(
    i: int,
    id: &str,
    value: &str,
    path: &str,
    file: Result<String, String>,
    r: Result<SaveStep, String>,
    before: Seq<char>,
    core: Seq<char>,
    behind: Seq<char>,
)
    requires
        0 <= i < surfaced().len(),
        surfaced()[i].kind == Kind::Str,
        id@ == surfaced()[i].id,
        value@ == before + core + behind,
        forall|k: int| 0 <= k < before.len() ==> text::is_space(#[trigger] before[k]),
        forall|k: int| 0 <= k < behind.len() ==> text::is_space(#[trigger] behind[k]),
        core.len() > 0 && !text::is_space(core[0]) && !text::is_space(core.last()),
        on_one_line(core),
        call_ensures(save, (id, value, path, file), r),
    ensures
        file is Err ==> r is Err,
        file matches Ok(t) ==> ({
            let f = surfaced()[i];
            let updated = edit::with_key(t@, f.table, f.key, quoted(core));
            &&& toml_doc::toml_value(updated) is Err ==> r is Err
            &&& toml_doc::toml_value(updated) is Ok && updated == t@ ==> r == Ok::<SaveStep, String>(
                SaveStep::Unchanged,
            )
            &&& toml_doc::toml_value(updated) is Ok && updated != t@ ==> (r matches Ok(
                SaveStep::Replace(w),
            ) && w@ == updated)
        }),
{
    let f = surfaced()[i];
    law_a_text_setting_takes_every_text(f, before, core, behind);
    law_a_sound_save_edits_the_file(i, value@, path@, result_text(file));
    if let Ok(t) = file {
        let updated = edit::with_key(t@, f.table, f.key, quoted(core));
        law_a_save_replaces_what_changes(t@, updated, toml_doc::toml_value(updated));
        assert(step_result(r) == next_step(t@, updated, toml_doc::toml_value(updated)));
        match r {
            Ok(step) => {
                assert(step_result(r) == Ok::<SaveStepView, Seq<char>>(step@));
            },
            Err(e) => {
                assert(step_result(r) == Err::<SaveStepView, Seq<char>>(e@));
            },
        }
    }
}

/// Reading lists every setting of a file that parses, and says in one line why one that
/// does not was refused.
pub proof fn law_a_file_that_parses_is_read(text: &str, r: Result<Vec<Setting>, String>)
    requires
        call_ensures(read, (text,), r),
    ensures
        r is Ok <==> toml_doc::toml_value(text@) is Ok,
        r matches Ok(list) ==> list@.len() == surfaced().len() && forall|i: int|
            0 <= i < list@.len() ==> (#[trigger] list@[i])@ == settings_in(
                toml_doc::toml_value(text@)->Ok_0,
            )[i] && list@[i].id@ == surfaced()[i].id && list@[i].value@ == settings_in(
                toml_doc::toml_value(text@)->Ok_0,
            )[i].value && (list@[i].present <==> found(
                surfaced()[i],
                toml_doc::toml_value(text@)->Ok_0,
            ) is Some),
        r matches Err(e) ==> e@ == text::first_line_or(
            toml_doc::toml_value(text@)->Err_0,
            "invalid TOML"@,
        ),
{
    if let Ok(list) = r {
        let doc = toml_doc::toml_value(text@)->Ok_0;
        assert(setting_views(list@).len() == list@.len());
        assert forall|i: int| 0 <= i < list@.len() implies (#[trigger] list@[i])@ == settings_in(
            doc,
        )[i] && list@[i].id@ == surfaced()[i].id && list@[i].value@ == settings_in(doc)[i].value
            && (list@[i].present <==> found(surfaced()[i], doc) is Some) by {
            assert(setting_views(list@)[i] == list@[i]@);
            law_every_setting_is_shown(doc, i);
            assert(list@[i]@.id == list@[i].id@);
            assert(list@[i]@.value == list@[i].value@);
            assert(list@[i]@.present == list@[i].present);
        }
    }
}

/// A backup that is reported was made: under a name that was not in use, by a copy that
/// went well.
pub proof fn law_a_backup_that_is_reported_was_made<
    F: Fn(&str) -> bool,
    G: FnOnce(&str) -> Result<(), String>,
>(
    path: &str,
    stamp: u64,
    in_use: F,
    copy: G,
    used: Set<Seq<char>>,
    r: Result<String, String>,
)
    requires
        call_ensures(backup::<F, G>, (path, stamp, in_use, copy), r),
        tells(in_use, used),
    ensures
        r matches Ok(e) ==> !used.contains(e@) && exists|name: &str, copied: Result<(), String>|
            name@ == e@ && copied is Ok && #[trigger] copy.ensures((name,), copied),
{
}

/// A save is reported with where the backup is, and one that could not be written with
/// the file and the reason.
pub proof fn law_a_save_tells_where_the_backup_is(
    path: &str,
    backup_at: &str,
    write: Result<(), String>,
    r: Result<String, String>,
)
    requires
        call_ensures(written, (path, backup_at, write), r),
    ensures
        r is Ok <==> write is Ok,
        r matches Ok(m) ==> backup_at@.is_suffix_of(m@) && text::holds(m@, "saved"@),
        write matches Err(why) ==> (r matches Err(m) && text::holds(m@, path@)
            && why@.is_suffix_of(m@)),
{
    match write {
        Ok(_) => {
            let m = r->Ok_0@;
            reveal_strlit("saved — backup at ");
            reveal_strlit("saved");
            assert(backup_at@ =~= m.subrange(m.len() - backup_at@.len(), m.len() as int));
            assert(m.subrange(0, 5) =~= "saved"@);
            assert(text::occurs_at(m, "saved"@, 0));
        },
        Err(why) => {
            let m = r->Err_0@;
            let n = ("could not "@ + "write"@ + " "@).len() as int;
            assert(m.subrange(n, n + path@.len()) =~= path@);
            assert(text::occurs_at(m, path@, n));
            assert(why@ =~= m.subrange(m.len() - why@.len(), m.len() as int));
        },
    }
}

/// The voxtype config that is named explicitly wins over the one in the home directory,
/// and that one over one below the current directory.
pub proof fn law_the_explicit_voxtype_config_wins(explicit: bool, home: bool, r: Place)
    requires
        call_ensures(path, (explicit, home), r),
    ensures
        r.base == Base::Explicit <==> explicit,
        r.base == Base::Home <==> !explicit && home,
        r.base == Base::Here <==> !explicit && !home,
        explicit ==> r.below@.len() == 0,
        !explicit ==> "voxtype/config.toml"@.is_suffix_of(r.below@),
{
    reveal_strlit("");
    reveal_strlit(".config/voxtype/config.toml");
    reveal_strlit("voxtype/config.toml");
    let end = "voxtype/config.toml"@;
    if !explicit {
        assert(end =~= r.below@.subrange(r.below@.len() - end.len(), r.below@.len() as int));
    }
}

} // verus!
